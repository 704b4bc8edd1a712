//! How `grok-pi` launches Pi: which bridge extensions it installs, the
//! argument list the Pi child gets (startup host extensions first, the
//! user's arguments without the extensions the resource policy blocks, the
//! policy-approved resources in place of Pi's own discovery, then the bridge
//! extensions in load order) and the environment the child gets.
use crate::cli::{default_off_spec, default_on_spec, push_repeated, push_switch, push_value, repeated_arg, switch_arg, value_arg};
use crate::queue_bridge::opt_view;
use crate::subagent_bridge::opt_str;
use crate::text::{decimal, push_decimal, str_eq, to_owned};
use vstd::prelude::*;

verus! {

/// The raw values of the environment switches that gate bridges (`None`
/// when unset).
#[derive(Debug, Clone)]
pub struct EnvSwitches {
    /// `PI_GROK_BASH` (default on).
    pub bash: Option<String>,
    /// `PI_GROK_NATIVE_COMMANDS` (default off).
    pub native_commands: Option<String>,
    /// `PI_GROK_REMOTE_TUI` (default on).
    pub remote_tui: Option<String>,
    /// `PI_GROK_RUST_TUI_BRIDGE` (default off).
    pub rust_tui_bridge: Option<String>,
}

/// The opt-in features of the `[ui]` settings.
#[derive(Debug, Clone, Copy)]
pub struct FeatureToggles {
    pub workflows: bool,
    pub goal: bool,
    pub loop_mode: bool,
    pub ask_user_question: bool,
    pub btw: bool,
}

/// Which bridge extensions to install.
#[derive(Debug, Clone, Copy, PartialEq, Eq, Structural)]
pub struct BridgeSelection {
    pub navigate_tree: bool,
    pub bash: bool,
    pub subagent: bool,
    pub workflow: bool,
    pub goal: bool,
    pub loop_mode: bool,
    pub ask_user: bool,
    pub btw: bool,
    pub recap: bool,
    pub context: bool,
    pub auth: bool,
    pub export: bool,
    pub native_commands: bool,
    pub remote_tui: bool,
    pub rpc_compat: bool,
    pub shortcut_manager: bool,
    pub rust_tui_bridge: bool,
    pub plan_mode: bool,
}

/// The bridges that `--no-extensions` (`no_extensions`), the environment
/// switches and the `[ui]` features select.  With `--no-extensions` none is
/// installed; the shortcut manager and the Rust TUI bridge need Remote TUI.
pub open spec fn selection_spec(no_extensions: bool, s: EnvSwitches, t: FeatureToggles) -> BridgeSelection {
    let on = !no_extensions;
    let remote = on && default_on_spec(opt_view(s.remote_tui));
    BridgeSelection {
        navigate_tree: on,
        bash: on && default_on_spec(opt_view(s.bash)),
        subagent: on,
        workflow: on && t.workflows,
        goal: on && t.goal,
        loop_mode: on && t.loop_mode,
        ask_user: on && t.ask_user_question,
        btw: on && t.btw,
        recap: on,
        context: on,
        auth: on,
        export: on,
        native_commands: on && default_off_spec(opt_view(s.native_commands)),
        remote_tui: remote,
        rpc_compat: on,
        shortcut_manager: remote,
        rust_tui_bridge: remote && default_off_spec(opt_view(s.rust_tui_bridge)),
        plan_mode: on,
    }
}

/// `--no-extensions` installs no bridge at all, whatever the switches and
/// features say.
pub proof fn law_no_extensions_selects_nothing(s: EnvSwitches, t: FeatureToggles)
    ensures
        ({
            let b = selection_spec(true, s, t);
            &&& !b.navigate_tree && !b.bash && !b.subagent && !b.workflow && !b.goal && !b.loop_mode
            &&& !b.ask_user && !b.btw && !b.recap && !b.context && !b.auth && !b.export
            &&& !b.native_commands && !b.remote_tui && !b.rpc_compat && !b.shortcut_manager
            &&& !b.rust_tui_bridge && !b.plan_mode
        }),
{
}

/// Decide which bridge extensions to install (see [`selection_spec`]).
pub fn bridge_selection(no_extensions: bool, switches: &EnvSwitches, toggles: &FeatureToggles) -> (r: BridgeSelection)
    ensures
        r == selection_spec(no_extensions, *switches, *toggles),
{
    let on = !no_extensions;
    let remote = on && crate::cli::env_flag_default_on(opt_as_str(&switches.remote_tui));
    BridgeSelection {
        navigate_tree: on,
        bash: on && crate::cli::env_flag_default_on(opt_as_str(&switches.bash)),
        subagent: on,
        workflow: on && toggles.workflows,
        goal: on && toggles.goal,
        loop_mode: on && toggles.loop_mode,
        ask_user: on && toggles.ask_user_question,
        btw: on && toggles.btw,
        recap: on,
        context: on,
        auth: on,
        export: on,
        native_commands: on && crate::cli::env_flag_default_off(opt_as_str(&switches.native_commands)),
        remote_tui: remote,
        rpc_compat: on,
        shortcut_manager: remote,
        rust_tui_bridge: remote && crate::cli::env_flag_default_off(opt_as_str(&switches.rust_tui_bridge)),
        plan_mode: on,
    }
}

fn opt_as_str(o: &Option<String>) -> (r: Option<&str>)
    ensures
        opt_str(r) == opt_view(*o),
{
    match o {
        Some(s) => Some(s.as_str()),
        None => None,
    }
}

/// The files of the installed bridge extensions (`None` for a bridge that is
/// not installed).  A pair holds the extension file and the bridge's
/// control file (goal, loop, plan mode), directory (ask-user), breakdown
/// file (context) or control metadata file (bash).
#[derive(Debug, Clone)]
pub struct BridgeExtensions {
    pub rpc_compat: Option<String>,
    pub remote_tui: Option<String>,
    pub shortcut_manager: Option<String>,
    pub rust_tui_bridge: Option<String>,
    pub subagent: Option<String>,
    pub workflow: Option<String>,
    pub goal: Option<(String, String)>,
    pub loop_mode: Option<(String, String)>,
    pub ask_user: Option<(String, String)>,
    pub btw: Option<String>,
    pub recap: Option<String>,
    pub context: Option<(String, String)>,
    pub auth: Option<String>,
    pub export: Option<String>,
    pub native_commands: Option<String>,
    pub bash: Option<(String, String)>,
    pub tools: Option<String>,
    pub rollback: Option<String>,
    pub plan_mode: Option<(String, String)>,
}

/// The resources the resource policy approves, by kind.
#[derive(Debug, Clone)]
pub struct ApprovedResources {
    pub extensions: Vec<String>,
    pub skills: Vec<String>,
    pub prompts: Vec<String>,
    pub themes: Vec<String>,
}

/// What the child's environment carries besides the bridge files.
#[derive(Debug, Clone)]
pub struct ChildEnvInputs {
    /// The built-in tools to keep (when the tools extension is installed).
    pub builtin_tools: Option<String>,
    /// The tools that `--exclude-tools` removes (empty when none).
    pub tool_exclusions: String,
    /// The host terminal's `(columns, rows)`, when known.
    pub terminal_size: Option<(u64, u64)>,
    /// The shortcut dispatch key file, when it could be created.
    pub shortcut_keys: Option<String>,
    /// Where rollback checkpoints are kept.
    pub rollback_state: String,
    /// The rollback control directory, when one was created.
    pub rollback_control: Option<String>,
}

/// The first file of an optional pair.
pub open spec fn first_of(p: Option<(String, String)>) -> Option<Seq<char>> {
    match p {
        Some((a, _)) => Some(a@),
        None => None,
    }
}

/// `--extension <path>` for an installed extension.
pub open spec fn ext_arg(path: Option<Seq<char>>) -> Seq<Seq<char>> {
    value_arg(path, "--extension"@)
}

/// The user's arguments from index `i` on, without each `--extension <p>`
/// whose path `p` is blocked.
pub open spec fn unblocked_from(args: Seq<Seq<char>>, blocked: Seq<Seq<char>>, i: int) -> Seq<Seq<char>>
    decreases args.len() - i,
{
    if i < 0 || i >= args.len() {
        Seq::empty()
    } else if args[i] == "--extension"@ && i + 1 < args.len() && blocked.contains(args[i + 1]) {
        unblocked_from(args, blocked, i + 2)
    } else {
        seq![args[i]] + unblocked_from(args, blocked, i + 1)
    }
}

/// The host extensions that must load before any other resource.
pub open spec fn startup_ext_args(b: BridgeExtensions) -> Seq<Seq<char>> {
    ext_arg(opt_view(b.rpc_compat)) + ext_arg(opt_view(b.remote_tui)) + ext_arg(opt_view(b.shortcut_manager))
        + ext_arg(opt_view(b.rust_tui_bridge))
}

/// `--no-<kind>` followed by each approved resource, unless the kind is
/// already disabled.
pub open spec fn approved_args(disabled: bool, no_flag: Seq<char>, paths: Seq<Seq<char>>, flag: Seq<char>) -> Seq<Seq<char>> {
    if disabled {
        Seq::empty()
    } else {
        seq![no_flag] + repeated_arg(paths, flag)
    }
}

/// The subagent, workflow, goal and loop bridges, in load order.
pub open spec fn agent_ext_args(b: BridgeExtensions) -> Seq<Seq<char>> {
    ext_arg(opt_view(b.subagent)) + ext_arg(opt_view(b.workflow)) + ext_arg(first_of(b.goal)) + ext_arg(
        first_of(b.loop_mode),
    )
}

/// The ask-user, btw, recap and context bridges, in load order.
pub open spec fn session_ext_args(b: BridgeExtensions) -> Seq<Seq<char>> {
    ext_arg(first_of(b.ask_user)) + ext_arg(opt_view(b.btw)) + ext_arg(opt_view(b.recap)) + ext_arg(
        first_of(b.context),
    )
}

/// The feature bridges, in load order.
pub open spec fn feature_ext_args(b: BridgeExtensions) -> Seq<Seq<char>> {
    agent_ext_args(b) + session_ext_args(b)
}

/// The host bridges after the feature bridges, in load order: the tool
/// bridges come late so that they see the final tool registrations, and the
/// plan gate comes last.
pub open spec fn host_ext_args(b: BridgeExtensions) -> Seq<Seq<char>> {
    ext_arg(opt_view(b.auth)) + ext_arg(opt_view(b.export)) + ext_arg(opt_view(b.native_commands)) + ext_arg(
        first_of(b.bash),
    ) + ext_arg(opt_view(b.tools)) + ext_arg(opt_view(b.rollback)) + ext_arg(first_of(b.plan_mode))
}

/// The bridge extensions in Pi's load order.
pub open spec fn bridge_ext_args(b: BridgeExtensions) -> Seq<Seq<char>> {
    feature_ext_args(b) + host_ext_args(b)
}

/// The Pi child's arguments: the startup host extensions, then the user's
/// arguments without blocked explicit extensions, then for each resource
/// kind that the user did not disable (`no_extensions` / `no_skills`: the
/// first-class switches) Pi's `--no-<kind>` and the approved resources, then
/// the bridge extensions.
pub open spec fn launch_args_spec(
    pi_args: Seq<Seq<char>>,
    blocked: Seq<Seq<char>>,
    no_extensions: bool,
    no_skills: bool,
    b: BridgeExtensions,
    approved: ApprovedResources,
) -> Seq<Seq<char>> {
    let base = startup_ext_args(b) + unblocked_from(pi_args, blocked, 0);
    base + approved_args(
        no_extensions || base.contains("--no-extensions"@),
        "--no-extensions"@,
        approved.extensions.deep_view(),
        "--extension"@,
    ) + approved_args(
        no_skills || base.contains("--no-skills"@),
        "--no-skills"@,
        approved.skills.deep_view(),
        "--skill"@,
    ) + approved_args(
        base.contains("--no-prompt-templates"@),
        "--no-prompt-templates"@,
        approved.prompts.deep_view(),
        "--prompt-template"@,
    ) + approved_args(base.contains("--no-themes"@), "--no-themes"@, approved.themes.deep_view(), "--theme"@)
        + bridge_ext_args(b)
}

/// `(key, value)` when `on`.
pub open spec fn env_if(on: bool, key: Seq<char>, value: Seq<char>) -> Seq<(Seq<char>, Seq<char>)> {
    if on {
        seq![(key, value)]
    } else {
        Seq::empty()
    }
}

/// `(key, value)` for a value that is given.
pub open spec fn env_opt(key: Seq<char>, value: Option<Seq<char>>) -> Seq<(Seq<char>, Seq<char>)> {
    match value {
        Some(v) => seq![(key, v)],
        None => Seq::empty(),
    }
}

/// `(flag_key, 1)` and `(key, second file)` for an installed pair.
pub open spec fn env_pair(p: Option<(String, String)>, flag_key: Option<Seq<char>>, key: Seq<char>) -> Seq<(Seq<char>, Seq<char>)> {
    match p {
        Some((_, second)) => match flag_key {
            Some(f) => seq![(f, "1"@), (key, second@)],
            None => seq![(key, second@)],
        },
        None => Seq::empty(),
    }
}

/// The Remote TUI variables: the flags, the host terminal size and the
/// shortcut key file.
pub open spec fn remote_env(on: bool, inputs: ChildEnvInputs) -> Seq<(Seq<char>, Seq<char>)> {
    if on {
        seq![("PI_GROK_REMOTE_TUI"@, "1"@), ("PI_GROK_EXTENSION_TUI_COMPAT"@, "1"@)] + match inputs.terminal_size {
            Some((cols, rows)) => seq![
                ("COLUMNS"@, decimal(cols as nat)),
                ("LINES"@, decimal(rows as nat)),
                ("PI_GROK_REMOTE_TUI_WIDTH"@, decimal(cols as nat)),
                ("PI_GROK_REMOTE_TUI_ROWS"@, decimal(rows as nat)),
            ],
            None => Seq::empty(),
        } + env_opt("PI_GROK_SHORTCUT_KEYS"@, opt_view(inputs.shortcut_keys))
    } else {
        Seq::empty()
    }
}

/// The first variables: `PI_GROK=1`, the tool selection (with the tools
/// extension), and the subagent and workflow flags.
pub open spec fn env_head(b: BridgeExtensions, inputs: ChildEnvInputs) -> Seq<(Seq<char>, Seq<char>)> {
    let tools = b.tools is Some;
    seq![("PI_GROK"@, "1"@)] + (if tools {
        env_opt("PI_GROK_BUILTIN_TOOLS"@, opt_view(inputs.builtin_tools))
    } else {
        Seq::empty()
    }) + env_if(tools && inputs.tool_exclusions@.len() > 0, "PI_GROK_EXCLUDE_TOOLS"@, inputs.tool_exclusions@)
        + env_if(b.subagent is Some, "PI_GROK_SUBAGENTS"@, "1"@) + env_if(b.workflow is Some, "PI_GROK_WORKFLOWS"@, "1"@)
}

/// The variables of the goal, loop, ask-user, context and bash bridges.
pub open spec fn env_bridges(b: BridgeExtensions) -> Seq<(Seq<char>, Seq<char>)> {
    env_pair(b.goal, Some("PI_GROK_GOAL"@), "PI_GROK_GOAL_CONTROL"@) + env_pair(
        b.loop_mode,
        Some("PI_GROK_LOOP"@),
        "PI_GROK_LOOP_CONTROL"@,
    ) + env_pair(b.ask_user, Some("PI_GROK_ASK_USER"@), "PI_GROK_ASK_USER_DIR"@) + env_pair(
        b.context,
        None,
        "PI_GROK_CONTEXT_BREAKDOWN"@,
    ) + env_pair(b.bash, Some("PI_GROK_BASH"@), "PI_GROK_BASH_CONTROL_META"@)
}

/// The plan-mode and rollback variables.
pub open spec fn env_tail(b: BridgeExtensions, inputs: ChildEnvInputs) -> Seq<(Seq<char>, Seq<char>)> {
    env_pair(b.plan_mode, None, "PI_GROK_PLAN_CONTROL"@) + (if b.rollback is Some {
        seq![("PI_GROK_ROLLBACK"@, "1"@), ("GROK_PI_ROLLBACK_STATE"@, inputs.rollback_state@)] + env_opt(
            "GROK_PI_ROLLBACK_CONTROL"@,
            opt_view(inputs.rollback_control),
        )
    } else {
        Seq::empty()
    })
}

/// The Pi child's environment, in order: `PI_GROK=1`, the tool selection
/// (with the tools extension), then one group per installed bridge.
pub open spec fn child_env_spec(b: BridgeExtensions, inputs: ChildEnvInputs) -> Seq<(Seq<char>, Seq<char>)> {
    env_head(b, inputs) + env_bridges(b) + remote_env(b.remote_tui is Some, inputs) + env_tail(b, inputs)
}

/// The views of an environment list.
pub open spec fn env_view(env: Seq<(String, String)>) -> Seq<(Seq<char>, Seq<char>)> {
    env.map_values(|p: (String, String)| (p.0@, p.1@))
}

fn push_first(out: &mut Vec<String>, p: &Option<(String, String)>)
    ensures
        final(out).deep_view() == old(out).deep_view() + ext_arg(first_of(*p)),
{
    let ghost before = out.deep_view();
    match p {
        Some((a, _)) => {
            out.push(to_owned("--extension"));
            out.push(a.clone());
        },
        None => {},
    }
    assert(out.deep_view() =~= before + ext_arg(first_of(*p)));
}

fn contains_arg(args: &Vec<String>, a: &str) -> (r: bool)
    ensures
        r == args.deep_view().contains(a@),
{
    let ghost dv = args.deep_view();
    let mut i: usize = 0;
    while i < args.len()
        invariant
            i <= args.len(),
            dv == args.deep_view(),
            forall|j: int| 0 <= j < i ==> dv[j] != a@,
        decreases args.len() - i,
    {
        if str_eq(args[i].as_str(), a) {
            assert(dv[i as int] == a@);
            return true;
        }
        i = i + 1;
    }
    false
}

fn push_approved(out: &mut Vec<String>, disabled: bool, no_flag: &str, paths: &Vec<String>, flag: &str)
    ensures
        final(out).deep_view() == old(out).deep_view() + approved_args(disabled, no_flag@, paths.deep_view(), flag@),
{
    let ghost before = out.deep_view();
    if !disabled {
        out.push(to_owned(no_flag));
        assert(out.deep_view() =~= before + seq![no_flag@]);
        push_repeated(out, paths, flag);
        assert(out.deep_view() =~= before + approved_args(disabled, no_flag@, paths.deep_view(), flag@));
    } else {
        assert(out.deep_view() =~= before + approved_args(disabled, no_flag@, paths.deep_view(), flag@));
    }
}

fn push_unblocked(out: &mut Vec<String>, pi_args: &Vec<String>, blocked: &Vec<String>)
    ensures
        final(out).deep_view() == old(out).deep_view() + unblocked_from(pi_args.deep_view(), blocked.deep_view(), 0),
{
    let ghost args = pi_args.deep_view();
    let ghost bl = blocked.deep_view();
    let ghost start = out.deep_view();
    let n = pi_args.len();
    let mut i: usize = 0;
    while i < n
        invariant
            n == pi_args.len(),
            args == pi_args.deep_view(),
            bl == blocked.deep_view(),
            i <= n + 1,
            out.deep_view() + unblocked_from(args, bl, i as int) == start + unblocked_from(args, bl, 0),
        decreases n + 1 - i,
    {
        if i + 1 < n && str_eq(pi_args[i].as_str(), "--extension") && contains_arg(blocked, pi_args[i + 1].as_str()) {
            assert(args[i as int] == "--extension"@);
            assert(args[i + 1] == pi_args@[i + 1]@);
            assert(unblocked_from(args, bl, i as int) == unblocked_from(args, bl, i + 2));
            i = i + 2;
        } else {
            let ghost before = out.deep_view();
            assert(args[i as int] == pi_args@[i as int]@);
            assert(unblocked_from(args, bl, i as int) == seq![args[i as int]] + unblocked_from(args, bl, i + 1));
            out.push(pi_args[i].clone());
            assert(out.deep_view() =~= before.push(args[i as int]));
            assert(out.deep_view() + unblocked_from(args, bl, i + 1) =~= before + unblocked_from(args, bl, i as int));
            i = i + 1;
        }
    }
    assert(unblocked_from(args, bl, i as int) =~= Seq::<Seq<char>>::empty());
    assert(out.deep_view() =~= start + unblocked_from(args, bl, 0));
}

fn push_agent_exts(out: &mut Vec<String>, bridges: &BridgeExtensions)
    ensures
        final(out).deep_view() == old(out).deep_view() + agent_ext_args(*bridges),
{
    let ghost s0 = out.deep_view();
    push_value(out, &bridges.subagent, "--extension");
    push_value(out, &bridges.workflow, "--extension");
    push_first(out, &bridges.goal);
    push_first(out, &bridges.loop_mode);
    assert(out.deep_view() =~= s0 + agent_ext_args(*bridges));
}

fn push_session_exts(out: &mut Vec<String>, bridges: &BridgeExtensions)
    ensures
        final(out).deep_view() == old(out).deep_view() + session_ext_args(*bridges),
{
    let ghost s0 = out.deep_view();
    push_first(out, &bridges.ask_user);
    push_value(out, &bridges.btw, "--extension");
    push_value(out, &bridges.recap, "--extension");
    push_first(out, &bridges.context);
    assert(out.deep_view() =~= s0 + session_ext_args(*bridges));
}

fn push_host_exts(out: &mut Vec<String>, bridges: &BridgeExtensions)
    ensures
        final(out).deep_view() == old(out).deep_view() + host_ext_args(*bridges),
{
    let ghost s0 = out.deep_view();
    push_value(out, &bridges.auth, "--extension");
    push_value(out, &bridges.export, "--extension");
    push_value(out, &bridges.native_commands, "--extension");
    push_first(out, &bridges.bash);
    let ghost s1 = out.deep_view();
    assert(s1 =~= s0 + ext_arg(opt_view(bridges.auth)) + ext_arg(opt_view(bridges.export)) + ext_arg(
        opt_view(bridges.native_commands),
    ) + ext_arg(first_of(bridges.bash)));
    push_value(out, &bridges.tools, "--extension");
    push_value(out, &bridges.rollback, "--extension");
    push_first(out, &bridges.plan_mode);
    assert(out.deep_view() =~= s0 + host_ext_args(*bridges));
}

/// The Pi child's arguments (see [`launch_args_spec`]); `blocked` lists the
/// explicit extension paths that the resource policy refuses.
pub fn launch_args(
    pi_args: &Vec<String>,
    blocked: &Vec<String>,
    no_extensions: bool,
    no_skills: bool,
    bridges: &BridgeExtensions,
    approved: &ApprovedResources,
) -> (r: Vec<String>)
    ensures
        r.deep_view() == launch_args_spec(
            pi_args.deep_view(),
            blocked.deep_view(),
            no_extensions,
            no_skills,
            *bridges,
            *approved,
        ),
{
    let mut out: Vec<String> = Vec::new();
    push_value(&mut out, &bridges.rpc_compat, "--extension");
    push_value(&mut out, &bridges.remote_tui, "--extension");
    push_value(&mut out, &bridges.shortcut_manager, "--extension");
    push_value(&mut out, &bridges.rust_tui_bridge, "--extension");
    assert(out.deep_view() =~= startup_ext_args(*bridges));
    push_unblocked(&mut out, pi_args, blocked);
    let ghost base = out.deep_view();
    let has_no_ext = no_extensions || contains_arg(&out, "--no-extensions");
    let has_no_skills = no_skills || contains_arg(&out, "--no-skills");
    let has_no_prompts = contains_arg(&out, "--no-prompt-templates");
    let has_no_themes = contains_arg(&out, "--no-themes");
    push_approved(&mut out, has_no_ext, "--no-extensions", &approved.extensions, "--extension");
    push_approved(&mut out, has_no_skills, "--no-skills", &approved.skills, "--skill");
    push_approved(&mut out, has_no_prompts, "--no-prompt-templates", &approved.prompts, "--prompt-template");
    push_approved(&mut out, has_no_themes, "--no-themes", &approved.themes, "--theme");
    let ghost mid = out.deep_view();
    push_agent_exts(&mut out, bridges);
    push_session_exts(&mut out, bridges);
    push_host_exts(&mut out, bridges);
    assert(out.deep_view() =~= mid + bridge_ext_args(*bridges));
    out
}

fn push_env(env: &mut Vec<(String, String)>, key: &str, value: String)
    ensures
        env_view(final(env)@) == env_view(old(env)@).push((key@, value@)),
{
    let ghost before = env@;
    env.push((to_owned(key), value));
    assert(env_view(env@) =~= env_view(before).push((key@, value@)));
}

fn decimal_string(n: u64) -> (r: String)
    ensures
        r@ == decimal(n as nat),
{
    let mut s = String::new();
    push_decimal(&mut s, n);
    assert(s@ =~= decimal(n as nat));
    s
}

fn push_pair(env: &mut Vec<(String, String)>, p: &Option<(String, String)>, flag_key: Option<&str>, key: &str)
    ensures
        env_view(final(env)@) == env_view(old(env)@) + env_pair(*p, opt_str(flag_key), key@),
{
    let ghost before = env_view(env@);
    match p {
        Some((_, second)) => {
            match flag_key {
                Some(f) => push_env(env, f, to_owned("1")),
                None => {},
            }
            push_env(env, key, second.clone());
        },
        None => {},
    }
    proof {
        reveal_strlit("1");
    }
    assert(env_view(env@) =~= before + env_pair(*p, opt_str(flag_key), key@));
}

fn push_env_head(env: &mut Vec<(String, String)>, bridges: &BridgeExtensions, inputs: &ChildEnvInputs)
    ensures
        env_view(final(env)@) == env_view(old(env)@) + env_head(*bridges, *inputs),
{
    proof {
        reveal_strlit("1");
    }
    let ghost e0 = env_view(env@);
    push_env(env, "PI_GROK", to_owned("1"));
    let tools = bridges.tools.is_some();
    if tools {
        match &inputs.builtin_tools {
            Some(t) => push_env(env, "PI_GROK_BUILTIN_TOOLS", t.clone()),
            None => {},
        }
    }
    if tools && inputs.tool_exclusions.as_str().unicode_len() > 0 {
        push_env(env, "PI_GROK_EXCLUDE_TOOLS", inputs.tool_exclusions.clone());
    }
    if bridges.subagent.is_some() {
        push_env(env, "PI_GROK_SUBAGENTS", to_owned("1"));
    }
    if bridges.workflow.is_some() {
        push_env(env, "PI_GROK_WORKFLOWS", to_owned("1"));
    }
    assert(env_view(env@) =~= e0 + env_head(*bridges, *inputs));
}

fn push_env_bridges(env: &mut Vec<(String, String)>, bridges: &BridgeExtensions)
    ensures
        env_view(final(env)@) == env_view(old(env)@) + env_bridges(*bridges),
{
    let ghost e0 = env_view(env@);
    push_pair(env, &bridges.goal, Some("PI_GROK_GOAL"), "PI_GROK_GOAL_CONTROL");
    push_pair(env, &bridges.loop_mode, Some("PI_GROK_LOOP"), "PI_GROK_LOOP_CONTROL");
    push_pair(env, &bridges.ask_user, Some("PI_GROK_ASK_USER"), "PI_GROK_ASK_USER_DIR");
    push_pair(env, &bridges.context, None, "PI_GROK_CONTEXT_BREAKDOWN");
    push_pair(env, &bridges.bash, Some("PI_GROK_BASH"), "PI_GROK_BASH_CONTROL_META");
    assert(env_view(env@) =~= e0 + env_bridges(*bridges));
}

fn push_env_remote(env: &mut Vec<(String, String)>, on: bool, inputs: &ChildEnvInputs)
    ensures
        env_view(final(env)@) == env_view(old(env)@) + remote_env(on, *inputs),
{
    proof {
        reveal_strlit("1");
    }
    let ghost e0 = env_view(env@);
    if on {
        push_env(env, "PI_GROK_REMOTE_TUI", to_owned("1"));
        push_env(env, "PI_GROK_EXTENSION_TUI_COMPAT", to_owned("1"));
        match inputs.terminal_size {
            Some((cols, rows)) => {
                push_env(env, "COLUMNS", decimal_string(cols));
                push_env(env, "LINES", decimal_string(rows));
                push_env(env, "PI_GROK_REMOTE_TUI_WIDTH", decimal_string(cols));
                push_env(env, "PI_GROK_REMOTE_TUI_ROWS", decimal_string(rows));
            },
            None => {},
        }
        match &inputs.shortcut_keys {
            Some(k) => push_env(env, "PI_GROK_SHORTCUT_KEYS", k.clone()),
            None => {},
        }
    }
    assert(env_view(env@) =~= e0 + remote_env(on, *inputs));
}

fn push_env_tail(env: &mut Vec<(String, String)>, bridges: &BridgeExtensions, inputs: &ChildEnvInputs)
    ensures
        env_view(final(env)@) == env_view(old(env)@) + env_tail(*bridges, *inputs),
{
    proof {
        reveal_strlit("1");
    }
    let ghost e0 = env_view(env@);
    push_pair(env, &bridges.plan_mode, None, "PI_GROK_PLAN_CONTROL");
    if bridges.rollback.is_some() {
        push_env(env, "PI_GROK_ROLLBACK", to_owned("1"));
        push_env(env, "GROK_PI_ROLLBACK_STATE", inputs.rollback_state.clone());
        match &inputs.rollback_control {
            Some(c) => push_env(env, "GROK_PI_ROLLBACK_CONTROL", c.clone()),
            None => {},
        }
    }
    assert(env_view(env@) =~= e0 + env_tail(*bridges, *inputs));
}

/// The Pi child's environment (see [`child_env_spec`]).
pub fn child_env(bridges: &BridgeExtensions, inputs: &ChildEnvInputs) -> (r: Vec<(String, String)>)
    ensures
        env_view(r@) == child_env_spec(*bridges, *inputs),
{
    let mut env: Vec<(String, String)> = Vec::new();
    assert(env_view(env@) =~= Seq::<(Seq<char>, Seq<char>)>::empty());
    push_env_head(&mut env, bridges, inputs);
    push_env_bridges(&mut env, bridges);
    push_env_remote(&mut env, bridges.remote_tui.is_some(), inputs);
    push_env_tail(&mut env, bridges, inputs);
    assert(env_view(env@) =~= child_env_spec(*bridges, *inputs));
    env
}

/// The full launch: the Pi child's arguments and environment.
pub fn launch_plan(
    pi_args: &Vec<String>,
    blocked: &Vec<String>,
    no_extensions: bool,
    no_skills: bool,
    bridges: &BridgeExtensions,
    approved: &ApprovedResources,
    inputs: &ChildEnvInputs,
) -> (r: (Vec<String>, Vec<(String, String)>))
    ensures
        r.0.deep_view() == launch_args_spec(
            pi_args.deep_view(),
            blocked.deep_view(),
            no_extensions,
            no_skills,
            *bridges,
            *approved,
        ),
        env_view(r.1@) == child_env_spec(*bridges, *inputs),
{
    (launch_args(pi_args, blocked, no_extensions, no_skills, bridges, approved), child_env(bridges, inputs))
}

} // verus!
