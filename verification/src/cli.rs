//! The `grok-pi` command line: which startup flags are forwarded to Pi, how
//! Pi's compound short flags are spelled out, how `--extension` arguments
//! are picked out, and which environment switches are on.
use crate::queue_bridge::opt_view;
use crate::text::{chars_of, eq_ignore_case, is_blank, lower, str_eq, to_ascii_lowercase, to_owned, trim, trim_str};
use vstd::prelude::*;

verus! {

/// The startup options of `grok-pi` that Pi understands too.
#[derive(Debug, Clone)]
pub struct StartupFlags {
    pub continue_last_session: bool,
    pub provider: Option<String>,
    pub model: Option<String>,
    pub models: Option<String>,
    pub thinking: Option<String>,
    pub session: Option<String>,
    pub session_id: Option<String>,
    pub fork: Option<String>,
    pub session_dir: Option<String>,
    pub system_prompt: Option<String>,
    pub append_system_prompts: Vec<String>,
    pub no_skills: bool,
    pub no_context_files: bool,
    pub extensions: Vec<String>,
    pub no_extensions: bool,
    pub tools: Option<String>,
    pub exclude_tools: Option<String>,
    pub no_tools: bool,
    pub no_builtin_tools: bool,
    pub no_session: bool,
    pub name: Option<String>,
    pub approve: bool,
    pub no_approve: bool,
    pub offline: bool,
}

impl Default for StartupFlags {
    fn default() -> (f: Self)
        ensures
            !f.continue_last_session,
            f.provider is None && f.model is None && f.models is None && f.thinking is None,
            f.session is None && f.session_id is None && f.fork is None && f.session_dir is None,
            f.system_prompt is None && f.append_system_prompts@.len() == 0,
            !f.no_skills && !f.no_context_files && f.extensions@.len() == 0 && !f.no_extensions,
            f.tools is None && f.exclude_tools is None,
            !f.no_tools && !f.no_builtin_tools && !f.no_session && f.name is None,
            !f.approve && !f.no_approve && !f.offline,
    {
        StartupFlags {
            continue_last_session: false,
            provider: None,
            model: None,
            models: None,
            thinking: None,
            session: None,
            session_id: None,
            fork: None,
            session_dir: None,
            system_prompt: None,
            append_system_prompts: Vec::new(),
            no_skills: false,
            no_context_files: false,
            extensions: Vec::new(),
            no_extensions: false,
            tools: None,
            exclude_tools: None,
            no_tools: false,
            no_builtin_tools: false,
            no_session: false,
            name: None,
            approve: false,
            no_approve: false,
            offline: false,
        }
    }
}

/// `[flag]` when `on`.
pub open spec fn switch_arg(on: bool, flag: Seq<char>) -> Seq<Seq<char>> {
    if on {
        seq![flag]
    } else {
        Seq::empty()
    }
}

/// `[flag, value]` when a value is given.
pub open spec fn value_arg(value: Option<Seq<char>>, flag: Seq<char>) -> Seq<Seq<char>> {
    match value {
        Some(v) => seq![flag, v],
        None => Seq::empty(),
    }
}

/// `[flag, v]` for each value, in order.
pub open spec fn repeated_arg(values: Seq<Seq<char>>, flag: Seq<char>) -> Seq<Seq<char>>
    decreases values.len(),
{
    if values.len() == 0 {
        Seq::empty()
    } else {
        repeated_arg(values.drop_last(), flag) + seq![flag, values.last()]
    }
}

/// The arguments after `pi_args` that forward the startup flags to Pi, in
/// Pi's order.  The bridge extension goes after the user's extensions and
/// before `--no-extensions`, since explicit extensions still load under it.
pub open spec fn startup_args(pi_args: Seq<Seq<char>>, f: StartupFlags, bridge: Option<Seq<char>>) -> Seq<Seq<char>> {
    pi_args + switch_arg(f.continue_last_session, "--continue"@) + value_arg(
        opt_view(f.provider),
        "--provider"@,
    ) + value_arg(opt_view(f.model), "--model"@) + value_arg(opt_view(f.models), "--models"@)
        + value_arg(opt_view(f.thinking), "--thinking"@) + value_arg(
        opt_view(f.session),
        "--session"@,
    ) + value_arg(opt_view(f.session_id), "--session-id"@) + value_arg(
        opt_view(f.fork),
        "--fork"@,
    ) + value_arg(opt_view(f.session_dir), "--session-dir"@) + value_arg(
        opt_view(f.system_prompt),
        "--system-prompt"@,
    ) + repeated_arg(f.append_system_prompts.deep_view(), "--append-system-prompt"@)
        + switch_arg(f.no_skills, "--no-skills"@) + switch_arg(
        f.no_context_files,
        "--no-context-files"@,
    ) + repeated_arg(f.extensions.deep_view(), "--extension"@) + value_arg(bridge, "--extension"@)
        + switch_arg(f.no_extensions, "--no-extensions"@) + value_arg(
        opt_view(f.tools),
        "--tools"@,
    ) + value_arg(opt_view(f.exclude_tools), "--exclude-tools"@) + switch_arg(
        f.no_tools,
        "--no-tools"@,
    ) + switch_arg(f.no_builtin_tools, "--no-builtin-tools"@) + switch_arg(
        f.no_session,
        "--no-session"@,
    ) + value_arg(opt_view(f.name), "--name"@) + switch_arg(f.approve, "--approve"@)
        + switch_arg(f.no_approve, "--no-approve"@) + switch_arg(f.offline, "--offline"@)
}

pub(crate) fn push_switch(out: &mut Vec<String>, on: bool, flag: &str)
    ensures
        final(out).deep_view() == old(out).deep_view() + switch_arg(on, flag@),
{
    let ghost before = out.deep_view();
    if on {
        out.push(to_owned(flag));
        assert(out.deep_view() =~= before + switch_arg(on, flag@));
    } else {
        assert(out.deep_view() =~= before + switch_arg(on, flag@));
    }
}

pub(crate) fn push_value(out: &mut Vec<String>, value: &Option<String>, flag: &str)
    ensures
        final(out).deep_view() == old(out).deep_view() + value_arg(opt_view(*value), flag@),
{
    let ghost before = out.deep_view();
    match value {
        Some(v) => {
            out.push(to_owned(flag));
            out.push(v.clone());
            assert(out.deep_view() =~= before + value_arg(opt_view(*value), flag@));
        },
        None => {
            assert(out.deep_view() =~= before + value_arg(opt_view(*value), flag@));
        },
    }
}

fn push_value_str(out: &mut Vec<String>, value: Option<&str>, flag: &str)
    ensures
        final(out).deep_view() == old(out).deep_view() + value_arg(
            crate::subagent_bridge::opt_str(value),
            flag@,
        ),
{
    let ghost before = out.deep_view();
    match value {
        Some(v) => {
            out.push(to_owned(flag));
            out.push(to_owned(v));
            assert(out.deep_view() =~= before + value_arg(crate::subagent_bridge::opt_str(value), flag@));
        },
        None => {
            assert(out.deep_view() =~= before + value_arg(crate::subagent_bridge::opt_str(value), flag@));
        },
    }
}

pub(crate) fn push_repeated(out: &mut Vec<String>, values: &Vec<String>, flag: &str)
    ensures
        final(out).deep_view() == old(out).deep_view() + repeated_arg(values.deep_view(), flag@),
{
    let ghost start = out.deep_view();
    let ghost vs = values.deep_view();
    let mut i: usize = 0;
    assert(vs.take(0) =~= Seq::<Seq<char>>::empty());
    assert(start + repeated_arg(vs.take(0), flag@) =~= start);
    while i < values.len()
        invariant
            i <= values.len(),
            vs == values.deep_view(),
            out.deep_view() == start + repeated_arg(vs.take(i as int), flag@),
        decreases values.len() - i,
    {
        assert(vs.take(i + 1).drop_last() =~= vs.take(i as int));
        let ghost before = out.deep_view();
        out.push(to_owned(flag));
        out.push(values[i].clone());
        assert(out.deep_view() =~= before + seq![flag@, vs[i as int]]);
        i = i + 1;
    }
    assert(vs.take(values.len() as int) =~= vs);
}

/// `pi_args` followed by the startup flags forwarded to Pi.
pub fn pi_args_with_startup_flags(pi_args: Vec<String>, flags: &StartupFlags, bridge_extension: Option<&str>) -> (r: Vec<String>)
    ensures
        r.deep_view() == startup_args(
            pi_args.deep_view(),
            *flags,
            crate::subagent_bridge::opt_str(bridge_extension),
        ),
{
    let mut out = pi_args;
    push_switch(&mut out, flags.continue_last_session, "--continue");
    push_value(&mut out, &flags.provider, "--provider");
    push_value(&mut out, &flags.model, "--model");
    push_value(&mut out, &flags.models, "--models");
    push_value(&mut out, &flags.thinking, "--thinking");
    push_value(&mut out, &flags.session, "--session");
    push_value(&mut out, &flags.session_id, "--session-id");
    push_value(&mut out, &flags.fork, "--fork");
    push_value(&mut out, &flags.session_dir, "--session-dir");
    push_value(&mut out, &flags.system_prompt, "--system-prompt");
    push_repeated(&mut out, &flags.append_system_prompts, "--append-system-prompt");
    push_switch(&mut out, flags.no_skills, "--no-skills");
    push_switch(&mut out, flags.no_context_files, "--no-context-files");
    push_repeated(&mut out, &flags.extensions, "--extension");
    push_value_str(&mut out, bridge_extension, "--extension");
    push_switch(&mut out, flags.no_extensions, "--no-extensions");
    push_value(&mut out, &flags.tools, "--tools");
    push_value(&mut out, &flags.exclude_tools, "--exclude-tools");
    push_switch(&mut out, flags.no_tools, "--no-tools");
    push_switch(&mut out, flags.no_builtin_tools, "--no-builtin-tools");
    push_switch(&mut out, flags.no_session, "--no-session");
    push_value(&mut out, &flags.name, "--name");
    push_switch(&mut out, flags.approve, "--approve");
    push_switch(&mut out, flags.no_approve, "--no-approve");
    push_switch(&mut out, flags.offline, "--offline");
    out
}


// ─── Compound short flags ────────────────────────────────────────────────────

/// The long spelling of one of Pi's compound short flags.
pub open spec fn compound_flag(arg: Seq<char>) -> Option<Seq<char>> {
    if arg == "-ns"@ {
        Some("--no-skills"@)
    } else if arg == "-nc"@ {
        Some("--no-context-files"@)
    } else if arg == "-ne"@ {
        Some("--no-extensions"@)
    } else if arg == "-nt"@ {
        Some("--no-tools"@)
    } else if arg == "-nbt"@ {
        Some("--no-builtin-tools"@)
    } else if arg == "-xt"@ {
        Some("--exclude-tools"@)
    } else if arg == "-na"@ {
        Some("--no-approve"@)
    } else {
        None
    }
}

/// The arguments with compound short flags spelled out, up to the first
/// `--` (arguments after it go to Pi unchanged).  `None` stands for an
/// argument that is not UTF-8, which is kept as it is.  Also says whether
/// options are still being read.
pub open spec fn expand_flags(args: Seq<Option<Seq<char>>>) -> (Seq<Option<Seq<char>>>, bool)
    decreases args.len(),
{
    if args.len() == 0 {
        (Seq::empty(), true)
    } else {
        let (prev, parsing) = expand_flags(args.drop_last());
        let a = args.last();
        if !parsing {
            (prev.push(a), false)
        } else {
            match a {
                Some(t) => if t == "--"@ {
                    (prev.push(a), false)
                } else {
                    match compound_flag(t) {
                        Some(long) => (prev.push(Some(long)), true),
                        None => (prev.push(a), true),
                    }
                },
                None => (prev.push(a), true),
            }
        }
    }
}

/// The views of optional strings.
pub open spec fn opt_views(v: Seq<Option<String>>) -> Seq<Option<Seq<char>>> {
    v.map_values(|o: Option<String>| opt_view(o))
}

fn compound_flag_exec(arg: &str) -> (r: Option<&'static str>)
    ensures
        match r {
            Some(l) => compound_flag(arg@) == Some(l@),
            None => compound_flag(arg@) is None,
        },
{
    if str_eq(arg, "-ns") {
        Some("--no-skills")
    } else if str_eq(arg, "-nc") {
        Some("--no-context-files")
    } else if str_eq(arg, "-ne") {
        Some("--no-extensions")
    } else if str_eq(arg, "-nt") {
        Some("--no-tools")
    } else if str_eq(arg, "-nbt") {
        Some("--no-builtin-tools")
    } else if str_eq(arg, "-xt") {
        Some("--exclude-tools")
    } else if str_eq(arg, "-na") {
        Some("--no-approve")
    } else {
        None
    }
}

/// Spell out Pi's compound short flags (`-ns`, `-nbt`, …) before the
/// arguments reach the option parser.  `None` marks an argument that is not
/// UTF-8; it is kept.
pub fn normalize_compound_short_flags(args: Vec<Option<String>>) -> (r: Vec<Option<String>>)
    ensures
        opt_views(r@) == expand_flags(opt_views(args@)).0,
{
    let ghost av = opt_views(args@);
    let mut out: Vec<Option<String>> = Vec::new();
    let mut parsing = true;
    let mut i: usize = 0;
    assert(av.take(0) =~= Seq::<Option<Seq<char>>>::empty());
    assert(opt_views(out@) =~= Seq::<Option<Seq<char>>>::empty());
    while i < args.len()
        invariant
            i <= args.len(),
            av == opt_views(args@),
            (opt_views(out@), parsing) == expand_flags(av.take(i as int)),
        decreases args.len() - i,
    {
        assert(av.take(i + 1).drop_last() =~= av.take(i as int));
        assert(av[i as int] == opt_view(args@[i as int]));
        let ghost before = out@;
        let item: Option<String> = match &args[i] {
            None => None,
            Some(t) => {
                if parsing && str_eq(t.as_str(), "--") {
                    parsing = false;
                    Some(t.clone())
                } else if parsing {
                    match compound_flag_exec(t.as_str()) {
                        Some(long) => Some(to_owned(long)),
                        None => Some(t.clone()),
                    }
                } else {
                    Some(t.clone())
                }
            },
        };
        out.push(item);
        assert(opt_views(out@) =~= opt_views(before).push(opt_view(item)));
        i = i + 1;
    }
    assert(av.take(args.len() as int) =~= av);
    out
}

// ─── Environment switches ────────────────────────────────────────────────────

/// A feature that is on unless its variable says `0`, `false`, `off` or
/// `no` (trimmed, ASCII case ignored).
pub open spec fn default_on_spec(value: Option<Seq<char>>) -> bool {
    match value {
        None => true,
        Some(v) => {
            let t = trim(v);
            !(eq_ignore_case(t, "0"@) || eq_ignore_case(t, "false"@) || eq_ignore_case(t, "off"@)
                || eq_ignore_case(t, "no"@))
        },
    }
}

/// A feature that is off unless its variable says `1`, `true`, `on` or
/// `yes` (trimmed, ASCII case ignored).
pub open spec fn default_off_spec(value: Option<Seq<char>>) -> bool {
    match value {
        None => false,
        Some(v) => {
            let t = lower(trim(v));
            t == "1"@ || t == "true"@ || t == "on"@ || t == "yes"@
        },
    }
}

/// Whether a default-on feature is enabled, given its variable's value
/// (`None` when unset or not Unicode).
pub fn env_flag_default_on(value: Option<&str>) -> (r: bool)
    ensures
        r == default_on_spec(crate::subagent_bridge::opt_str(value)),
{
    match value {
        None => true,
        Some(v) => {
            let t = trim_str(v);
            let ts = t.as_str();
            !(crate::text::eq_ignore_ascii_case(ts, "0") || crate::text::eq_ignore_ascii_case(ts, "false")
                || crate::text::eq_ignore_ascii_case(ts, "off") || crate::text::eq_ignore_ascii_case(
                ts,
                "no",
            ))
        },
    }
}

/// Whether an experimental (default-off) feature is enabled, given its
/// variable's value.
pub fn env_flag_default_off(value: Option<&str>) -> (r: bool)
    ensures
        r == default_off_spec(crate::subagent_bridge::opt_str(value)),
{
    match value {
        None => false,
        Some(v) => {
            let t = trim_str(v);
            let l = to_ascii_lowercase(t.as_str());
            let ls = l.as_str();
            str_eq(ls, "1") || str_eq(ls, "true") || str_eq(ls, "on") || str_eq(ls, "yes")
        },
    }
}

// ─── Extension arguments ─────────────────────────────────────────────────────

/// The values of the `--extension <path>` pairs of `args`, in order.
pub open spec fn extension_paths(args: Seq<Seq<char>>) -> Seq<Seq<char>>
    decreases args.len(),
{
    if args.len() == 0 {
        Seq::empty()
    } else if args[0] == "--extension"@ && args.len() >= 2 {
        seq![args[1]] + extension_paths(args.skip(2))
    } else {
        extension_paths(args.skip(1))
    }
}

/// `args` without its `--extension <path>` pairs whose path satisfies
/// `which` (every pair when `which` is `None`).
pub open spec fn without_extensions(args: Seq<Seq<char>>, which: Option<Seq<char>>) -> Seq<Seq<char>>
    decreases args.len(),
{
    if args.len() == 0 {
        Seq::empty()
    } else if args[0] == "--extension"@ && args.len() >= 2 && (which is None || which == Some(
        args[1],
    )) {
        without_extensions(args.skip(2), which)
    } else {
        seq![args[0]] + without_extensions(args.skip(1), which)
    }
}

/// All `--extension <path>` values of `pi_args`.
pub fn extract_extension_paths(pi_args: &Vec<String>) -> (r: Vec<String>)
    ensures
        r.deep_view() == extension_paths(pi_args.deep_view()),
{
    let ghost a = pi_args.deep_view();
    let mut out: Vec<String> = Vec::new();
    let mut i: usize = 0;
    assert(a.skip(0) =~= a);
    assert(out.deep_view() + extension_paths(a.skip(0)) =~= extension_paths(a));
    while i < pi_args.len()
        invariant
            i <= pi_args.len(),
            a == pi_args.deep_view(),
            out.deep_view() + extension_paths(a.skip(i as int)) == extension_paths(a),
        decreases pi_args.len() - i,
    {
        let ghost rest = a.skip(i as int);
        assert(rest[0] == pi_args@[i as int]@);
        if str_eq(pi_args[i].as_str(), "--extension") && i + 1 < pi_args.len() {
            assert(rest[1] == pi_args@[i + 1]@);
            assert(rest.skip(2) =~= a.skip(i + 2));
            let ghost before = out.deep_view();
            out.push(pi_args[i + 1].clone());
            assert(out.deep_view() =~= before.push(rest[1]));
            assert(before + (seq![rest[1]] + extension_paths(rest.skip(2))) =~= out.deep_view()
                + extension_paths(rest.skip(2)));
            i = i + 2;
        } else {
            assert(rest.skip(1) =~= a.skip(i + 1));
            i = i + 1;
        }
    }
    assert(a.skip(pi_args.len() as int) =~= Seq::<Seq<char>>::empty());
    assert(out.deep_view() + Seq::<Seq<char>>::empty() =~= out.deep_view());
    out
}

fn drop_extensions(pi_args: &Vec<String>, which: Option<&str>) -> (r: Vec<String>)
    ensures
        r.deep_view() == without_extensions(pi_args.deep_view(), crate::subagent_bridge::opt_str(which)),
{
    let ghost a = pi_args.deep_view();
    let ghost w = crate::subagent_bridge::opt_str(which);
    let mut out: Vec<String> = Vec::new();
    let mut i: usize = 0;
    assert(a.skip(0) =~= a);
    assert(out.deep_view() + without_extensions(a.skip(0), w) =~= without_extensions(a, w));
    while i < pi_args.len()
        invariant
            i <= pi_args.len(),
            a == pi_args.deep_view(),
            w == crate::subagent_bridge::opt_str(which),
            out.deep_view() + without_extensions(a.skip(i as int), w) == without_extensions(a, w),
        decreases pi_args.len() - i,
    {
        let ghost rest = a.skip(i as int);
        assert(rest[0] == pi_args@[i as int]@);
        let matches = str_eq(pi_args[i].as_str(), "--extension") && i + 1 < pi_args.len() && match which {
            None => true,
            Some(p) => str_eq(pi_args[i + 1].as_str(), p),
        };
        if matches {
            assert(rest[1] == pi_args@[i + 1]@);
            assert(rest.skip(2) =~= a.skip(i + 2));
            i = i + 2;
        } else {
            if str_eq(pi_args[i].as_str(), "--extension") && i + 1 < pi_args.len() {
                assert(rest[1] == pi_args@[i + 1]@);
            }
            assert(rest.skip(1) =~= a.skip(i + 1));
            let ghost before = out.deep_view();
            out.push(pi_args[i].clone());
            assert(out.deep_view() =~= before.push(rest[0]));
            assert(before + (seq![rest[0]] + without_extensions(rest.skip(1), w)) =~= out.deep_view()
                + without_extensions(rest.skip(1), w));
            i = i + 1;
        }
    }
    assert(a.skip(pi_args.len() as int) =~= Seq::<Seq<char>>::empty());
    assert(out.deep_view() + Seq::<Seq<char>>::empty() =~= out.deep_view());
    out
}

/// `pi_args` without any `--extension <path>` pair.
pub fn strip_extension_args(pi_args: &Vec<String>) -> (r: Vec<String>)
    ensures
        r.deep_view() == without_extensions(pi_args.deep_view(), None),
{
    drop_extensions(pi_args, None)
}

/// `pi_args` without the `--extension <path>` pairs for `path`.
pub fn remove_extension_path(pi_args: &Vec<String>, path: &str) -> (r: Vec<String>)
    ensures
        r.deep_view() == without_extensions(pi_args.deep_view(), Some(path@)),
{
    drop_extensions(pi_args, Some(path))
}


/// After stripping, Pi is started with no extension at all: no
/// `--extension <path>` pair is left in the arguments.
pub proof fn law_stripped_args_load_no_extensions(args: Seq<Seq<char>>)
    ensures
        extension_paths(without_extensions(args, None)) == Seq::<Seq<char>>::empty(),
    decreases args.len(),
{
    if args.len() > 0 {
        if args[0] == "--extension"@ && args.len() >= 2 {
            law_stripped_args_load_no_extensions(args.skip(2));
        } else {
            law_stripped_args_load_no_extensions(args.skip(1));
            let rest = without_extensions(args.skip(1), None);
            let out = seq![args[0]] + rest;
            assert(out.skip(1) =~= rest);
            if args.len() == 1 {
                assert(args.skip(1) =~= Seq::<Seq<char>>::empty());
                assert(rest =~= Seq::<Seq<char>>::empty());
                assert(out.skip(1) =~= Seq::<Seq<char>>::empty());
            }
        }
    }
}

// ─── Native command profile ──────────────────────────────────────────────────

/// The Grok pager commands that are meaningful when Pi is the backend.
pub open spec fn native_commands_spec() -> Seq<Seq<char>> {
    seq![
        "exit"@, "help"@, "hotkeys"@, "new"@, "compact"@, "model"@, "effort"@, "rename"@,
        "resume"@, "session-info"@, "tree"@, "tree-map"@, "fork"@, "clone"@, "reload"@,
        "notify"@, "dashboard"@, "recap"@, "btw"@, "copy"@, "find"@, "jump"@,
        "review-session"@, "review-message"@, "transcript"@, "export"@, "expand"@, "queue"@,
        "multiline"@, "compact-mode"@, "vim-mode"@, "theme"@, "timestamps"@, "timeline"@,
        "toggle-mouse-reporting"@, "voice"@, "doctor"@, "pi-config"@, "pi-shortcut-manager"@,
    ]
}

/// The pager commands offered with Pi as the backend: process and help
/// commands, ACP operations Pi implements, and the pager's own transcript,
/// navigation and appearance surfaces.  Pi's own commands are merged in at
/// run time.
pub fn pi_grok_native_commands() -> (r: Vec<&'static str>)
    ensures
        r@.map_values(|s: &str| s@) == native_commands_spec(),
{
    let v: Vec<&'static str> = vec![
        "exit", "help", "hotkeys", "new", "compact", "model", "effort", "rename", "resume",
        "session-info", "tree", "tree-map", "fork", "clone", "reload", "notify", "dashboard",
        "recap", "btw", "copy", "find", "jump", "review-session", "review-message", "transcript",
        "export", "expand", "queue", "multiline", "compact-mode", "vim-mode", "theme",
        "timestamps", "timeline", "toggle-mouse-reporting", "voice", "doctor", "pi-config",
        "pi-shortcut-manager",
    ];
    assert(v@.map_values(|s: &str| s@) =~= native_commands_spec());
    v
}


// ─── Extension identity ──────────────────────────────────────────────────────

/// A path separator (`/` or `\`).
pub open spec fn path_sep(c: char) -> bool {
    c == '/' || c == '\\'
}

/// Splitting at separators as a left-to-right scan: the finished non-empty
/// segments and the segment being read.
pub open spec fn segments_state(s: Seq<char>) -> (Seq<Seq<char>>, Seq<char>)
    decreases s.len(),
{
    if s.len() == 0 {
        (Seq::empty(), Seq::empty())
    } else {
        let (done, cur) = segments_state(s.drop_last());
        if path_sep(s.last()) {
            if cur.len() > 0 {
                (done.push(cur), Seq::empty())
            } else {
                (done, Seq::empty())
            }
        } else {
            (done, cur.push(s.last()))
        }
    }
}

/// The non-empty segments of a path written with `/` or `\`.
pub open spec fn segments(s: Seq<char>) -> Seq<Seq<char>> {
    let (done, cur) = segments_state(s);
    if cur.len() > 0 {
        done.push(cur)
    } else {
        done
    }
}

/// Index of the last segment equal to `w`.
pub open spec fn rposition(parts: Seq<Seq<char>>, w: Seq<char>) -> Option<int>
    decreases parts.len(),
{
    if parts.len() == 0 {
        None
    } else if parts.last() == w {
        Some(parts.len() - 1)
    } else {
        rposition(parts.drop_last(), w)
    }
}

/// `s` with every trailing copy of `suffix` removed (`trim_end_matches`).
pub open spec fn strip_all_suffix(s: Seq<char>, suffix: Seq<char>) -> Seq<char>
    decreases s.len(),
{
    if suffix.len() > 0 && crate::text::has_suffix(s, suffix) {
        strip_all_suffix(s.take(s.len() - suffix.len()), suffix)
    } else {
        s
    }
}

/// An extension's name from its file name: script suffixes removed.
pub open spec fn script_name(leaf: Seq<char>) -> Seq<char> {
    strip_all_suffix(strip_all_suffix(strip_all_suffix(leaf, ".ts"@), ".js"@), ".mjs"@)
}

/// The privacy-safe identity `(name, package)` of an extension path: the
/// package under the last `node_modules` (scoped packages as `@scope/name`),
/// else the directory under the last `extensions`, else the script name
/// with its directory as the package (unless that is `node_modules` or
/// hidden).  No absolute path is ever part of it.
pub open spec fn identity_spec(input: Seq<char>) -> (Seq<char>, Seq<char>) {
    let parts = segments(input);
    let n = parts.len();
    let by_package = match rposition(parts, "node_modules"@) {
        Some(nm) => if nm + 1 < n {
            let a = parts[nm + 1];
            if a.len() > 0 && a[0] == '@' && nm + 2 < n {
                Some((parts[nm + 2], a + "/"@ + parts[nm + 2]))
            } else {
                Some((a, a))
            }
        } else {
            None
        },
        None => None,
    };
    let by_dir = match rposition(parts, "extensions"@) {
        Some(ei) => if ei + 1 < n && !crate::text::has_char(parts[ei + 1], '.') {
            Some((parts[ei + 1], parts[ei + 1]))
        } else {
            None
        },
        None => None,
    };
    match by_package {
        Some(id) => id,
        None => match by_dir {
            Some(id) => id,
            None => {
                let name = script_name(if n > 0 { parts[n - 1] } else { "unknown"@ });
                if n >= 2 && parts[n - 2] != "node_modules"@ && !(parts[n - 2].len() > 0
                    && parts[n - 2][0] == '.') {
                    (name, parts[n - 2])
                } else {
                    (name, name)
                }
            },
        },
    }
}

fn segments_exec(s: &str) -> (r: Vec<String>)
    ensures
        r.deep_view() == segments(s@),
{
    let v = chars_of(s);
    let mut done: Vec<String> = Vec::new();
    let mut cur: Vec<char> = Vec::new();
    let mut i: usize = 0;
    while i < v.len()
        invariant
            v@ == s@,
            i <= v.len(),
            (done.deep_view(), cur@) == segments_state(v@.take(i as int)),
        decreases v.len() - i,
    {
        let c = v[i];
        assert(v@.take(i + 1).drop_last() =~= v@.take(i as int));
        if c == '/' || c == '\\' {
            if cur.len() > 0 {
                let word = crate::text::string_of(&cur);
                done.push(word);
                cur = Vec::new();
                assert(done.deep_view() =~= segments_state(v@.take(i as int)).0.push(
                    segments_state(v@.take(i as int)).1,
                ));
            }
        } else {
            cur.push(c);
        }
        i = i + 1;
    }
    assert(v@.take(v.len() as int) =~= v@);
    if cur.len() > 0 {
        let word = crate::text::string_of(&cur);
        done.push(word);
        assert(done.deep_view() =~= segments_state(v@).0.push(segments_state(v@).1));
    }
    done
}

proof fn lemma_rposition_range(parts: Seq<Seq<char>>, w: Seq<char>)
    ensures
        rposition(parts, w) matches Some(i) ==> 0 <= i < parts.len() && parts[i] == w,
    decreases parts.len(),
{
    if parts.len() > 0 {
        lemma_rposition_range(parts.drop_last(), w);
    }
}

fn rposition_exec(parts: &Vec<String>, w: &str) -> (r: Option<usize>)
    ensures
        match r {
            Some(i) => rposition(parts.deep_view(), w@) == Some(i as int),
            None => rposition(parts.deep_view(), w@) is None,
        },
{
    let ghost pv = parts.deep_view();
    let mut k: usize = parts.len();
    assert(pv.take(k as int) =~= pv);
    while k > 0
        invariant
            k <= parts.len(),
            pv == parts.deep_view(),
            rposition(pv, w@) == rposition(pv.take(k as int), w@),
        decreases k,
    {
        assert(pv.take(k as int).last() == parts@[k - 1]@);
        if str_eq(parts[k - 1].as_str(), w) {
            return Some(k - 1);
        }
        assert(pv.take(k as int).drop_last() =~= pv.take(k - 1));
        k = k - 1;
    }
    None
}

pub(crate) fn strip_all_suffix_exec(s: String, suffix: &str) -> (r: String)
    requires
        suffix@.len() > 0,
    ensures
        r@ == strip_all_suffix(s@, suffix@),
{
    let v = chars_of(s.as_str());
    let n = chars_of(suffix).len();
    let mut k: usize = v.len();
    let ghost orig = s@;
    assert(v@.take(k as int) =~= orig);
    loop
        invariant
            k <= v.len(),
            v@ == orig,
            orig == s@,
            n == suffix@.len(),
            n > 0,
            strip_all_suffix(v@.take(k as int), suffix@) == strip_all_suffix(orig, suffix@),
        decreases k,
    {
        let cur = crate::text::string_of_range(&v, 0, k);
        assert(cur@ =~= v@.take(k as int));
        if crate::text::ends_with(cur.as_str(), suffix) {
            assert(v@.take(k as int).take(k - n) =~= v@.take(k - n));
            k = k - n;
        } else {
            assert(strip_all_suffix(v@.take(k as int), suffix@) == v@.take(k as int));
            return cur;
        }
    }
}

/// The privacy-safe identity `(name, package)` of an extension path, for
/// crash reports.
pub fn ext_identity_from_path(input: &str) -> (r: (String, String))
    ensures
        (r.0@, r.1@) == identity_spec(input@),
{
    let parts = segments_exec(input);
    let ghost pv = parts.deep_view();
    let n = parts.len();
    proof {
        lemma_rposition_range(pv, "node_modules"@);
        lemma_rposition_range(pv, "extensions"@);
    }
    match rposition_exec(&parts, "node_modules") {
        Some(nm) => if nm + 1 < n {
            let a = &parts[nm + 1];
            assert(pv[nm + 1] == a@);
            let av = chars_of(a.as_str());
            if av.len() > 0 && av[0] == '@' && nm + 2 < n {
                assert(pv[nm + 2] == parts@[nm + 2]@);
                let name = parts[nm + 2].clone();
                let mut pkg = a.clone();
                crate::text::push_str(&mut pkg, "/");
                crate::text::push_str(&mut pkg, name.as_str());
                return (name, pkg);
            }
            return (a.clone(), a.clone());
        },
        None => {},
    }
    match rposition_exec(&parts, "extensions") {
        Some(ei) => if ei + 1 < n && !crate::text::contains_char(parts[ei + 1].as_str(), '.') {
            assert(pv[ei + 1] == parts@[ei + 1]@);
            return (parts[ei + 1].clone(), parts[ei + 1].clone());
        },
        None => {},
    }
    let leaf = if n > 0 {
        assert(pv[n - 1] == parts@[n - 1]@);
        parts[n - 1].clone()
    } else {
        String::from_str("unknown")
    };
    proof {
        reveal_strlit(".ts");
        reveal_strlit(".js");
        reveal_strlit(".mjs");
    }
    let name = strip_all_suffix_exec(
        strip_all_suffix_exec(strip_all_suffix_exec(leaf, ".ts"), ".js"),
        ".mjs",
    );
    if n >= 2 {
        let parent = &parts[n - 2];
        assert(pv[n - 2] == parent@);
        let pc = chars_of(parent.as_str());
        if !str_eq(parent.as_str(), "node_modules") && !(pc.len() > 0 && pc[0] == '.') {
            return (name, parent.clone());
        }
    }
    (name.clone(), name)
}

// ─── Pi's built-in tools ─────────────────────────────────────────────────────

/// Whether the Pi arguments name an explicit tool allow-list (`--tools` or
/// `-t`).
pub fn has_explicit_tools_arg(args: &Vec<String>) -> (r: bool)
    ensures
        r == exists|i: int| 0 <= i < args@.len() && (args@[i]@ == "--tools"@ || args@[i]@ == "-t"@),
{
    let mut i: usize = 0;
    while i < args.len()
        invariant
            i <= args.len(),
            forall|j: int| 0 <= j < i ==> !(args@[j]@ == "--tools"@ || args@[j]@ == "-t"@),
        decreases args.len() - i,
    {
        if str_eq(args[i].as_str(), "--tools") || str_eq(args[i].as_str(), "-t") {
            return true;
        }
        i = i + 1;
    }
    false
}

/// The setting of tool `name` in the `[ui.pi_builtin_tools]` table: the
/// entry's value when it is a boolean (`(name, Some(flag))`).
pub open spec fn tool_setting(table: Seq<(String, Option<bool>)>, name: Seq<char>) -> Option<bool>
    decreases table.len(),
{
    if table.len() == 0 {
        None
    } else if table[0].0@ == name {
        table[0].1
    } else {
        tool_setting(table.drop_first(), name)
    }
}

/// Whether tool `name` is on: its setting, else on for the four default
/// tools only.
pub open spec fn tool_on(table: Seq<(String, Option<bool>)>, name: Seq<char>) -> bool {
    match tool_setting(table, name) {
        Some(b) => b,
        None => name == "read"@ || name == "bash"@ || name == "edit"@ || name == "write"@,
    }
}

/// The names of the tools that are on, among `names`, in order.
pub open spec fn tools_on(table: Seq<(String, Option<bool>)>, names: Seq<Seq<char>>) -> Seq<Seq<char>>
    decreases names.len(),
{
    if names.len() == 0 {
        Seq::empty()
    } else {
        let rest = tools_on(table, names.drop_last());
        if tool_on(table, names.last()) {
            rest.push(names.last())
        } else {
            rest
        }
    }
}

/// Pi's built-in tools in their order.
pub open spec fn builtin_tool_names() -> Seq<Seq<char>> {
    seq!["read"@, "bash"@, "edit"@, "write"@, "grep"@, "find"@, "ls"@]
}

/// The comma-separated built-in tools that Pi gets: the defaults without a
/// `[ui.pi_builtin_tools]` table, else those that the table (or the
/// defaults for tools it omits) turns on.
pub open spec fn builtin_tools_spec(table: Option<Seq<(String, Option<bool>)>>) -> Seq<char> {
    match table {
        None => crate::text::join(seq!["read"@, "bash"@, "edit"@, "write"@], ","@),
        Some(t) => crate::text::join(tools_on(t, builtin_tool_names()), ","@),
    }
}

fn tool_setting_exec(table: &Vec<(String, Option<bool>)>, name: &str) -> (r: Option<bool>)
    ensures
        r == tool_setting(table@, name@),
{
    let mut i: usize = 0;
    assert(table@.skip(0) =~= table@);
    while i < table.len()
        invariant
            i <= table.len(),
            tool_setting(table@, name@) == tool_setting(table@.skip(i as int), name@),
        decreases table.len() - i,
    {
        assert(table@.skip(i as int)[0] == table@[i as int]);
        if str_eq(table[i].0.as_str(), name) {
            return table[i].1;
        }
        assert(table@.skip(i as int).drop_first() =~= table@.skip(i + 1));
        i = i + 1;
    }
    None
}

/// The built-in tools that Pi gets from the `[ui.pi_builtin_tools]` table of
/// the effective configuration (see [`builtin_tools_spec`]).
pub fn configured_builtin_tools(table: Option<&Vec<(String, Option<bool>)>>) -> (r: String)
    ensures
        r@ == builtin_tools_spec(
            match table {
                Some(t) => Some(t@),
                None => None,
            },
        ),
{
    let mut names: Vec<String> = Vec::new();
    match table {
        None => {
            names.push(to_owned("read"));
            names.push(to_owned("bash"));
            names.push(to_owned("edit"));
            names.push(to_owned("write"));
            let r = crate::text::join_strings(&names, ",");
            assert(names.deep_view() =~= seq!["read"@, "bash"@, "edit"@, "write"@]);
            r
        },
        Some(t) => {
            let all: [&str; 7] = ["read", "bash", "edit", "write", "grep", "find", "ls"];
            let mut i: usize = 0;
            let ghost all_v = builtin_tool_names();
            while i < 7
                invariant
                    i <= 7,
                    all_v == builtin_tool_names(),
                    forall|k: int| 0 <= k < 7 ==> (#[trigger] all@[k])@ == all_v[k],
                    names.deep_view() == tools_on(t@, all_v.take(i as int)),
                decreases 7 - i,
            {
                let name = all[i];
                let on = match tool_setting_exec(t, name) {
                    Some(b) => b,
                    None => str_eq(name, "read") || str_eq(name, "bash") || str_eq(name, "edit") || str_eq(name, "write"),
                };
                assert(all_v.take(i + 1).drop_last() =~= all_v.take(i as int));
                let ghost before = names.deep_view();
                if on {
                    names.push(to_owned(name));
                    assert(names.deep_view() =~= before.push(name@));
                }
                i = i + 1;
            }
            assert(all_v.take(7) =~= all_v);
            crate::text::join_strings(&names, ",")
        },
    }
}


/// Whether no argument before index `i` is the end-of-options marker `--`.
pub open spec fn options_open(args: Seq<Option<Seq<char>>>, i: int) -> bool {
    forall|j: int| 0 <= j < i ==> #[trigger] args[j] != Some("--"@)
}

proof fn lemma_expand_shape(args: Seq<Option<Seq<char>>>)
    ensures
        expand_flags(args).0.len() == args.len(),
        expand_flags(args).1 == options_open(args, args.len() as int),
        forall|i: int|
            0 <= i < args.len() ==> #[trigger] expand_flags(args).0[i] == (if options_open(args, i) {
                match args[i] {
                    Some(t) => if t == "--"@ {
                        args[i]
                    } else {
                        match compound_flag(t) {
                            Some(l) => Some(l),
                            None => args[i],
                        }
                    },
                    None => None,
                }
            } else {
                args[i]
            }),
    decreases args.len(),
{
    if args.len() > 0 {
        let prev = args.drop_last();
        lemma_expand_shape(prev);
        let n = args.len() - 1;
        assert forall|i: int| 0 <= i <= n implies options_open(prev, i) == options_open(args, i) by {
            if options_open(prev, i) {
                assert forall|j: int| 0 <= j < i implies #[trigger] args[j] != Some("--"@) by {
                    assert(prev[j] == args[j]);
                }
            }
            if options_open(args, i) {
                assert forall|j: int| 0 <= j < i implies #[trigger] prev[j] != Some("--"@) by {
                    assert(prev[j] == args[j]);
                }
            }
        }
        assert forall|i: int| 0 <= i < n implies prev[i] == args[i] by {}
        if !options_open(args, n) {
            let j = choose|j: int| 0 <= j < n && !(#[trigger] args[j] != Some("--"@));
            assert(!options_open(args, n + 1)) by {
                assert(args[j] == Some("--"@));
            }
        } else if args[n] == Some("--"@) {
            assert(!options_open(args, n + 1)) by {
                assert(args[n] == Some("--"@));
            }
        } else {
            assert(options_open(args, n + 1));
        }
    }
}

/// Compound short flags are spelled out as their long flags while options
/// are read (before any `--`): `-ns` as `--no-skills`, `-nc` as
/// `--no-context-files`, `-ne` as `--no-extensions`, `-nt` as `--no-tools`,
/// `-nbt` as `--no-builtin-tools`, `-xt` as `--exclude-tools` and `-na` as
/// `--no-approve`; every other argument, and every argument after `--`,
/// stays as it is, and the number of arguments does not change.
pub proof fn law_compound_flags_spelled_out(args: Seq<Option<Seq<char>>>, i: int)
    requires
        0 <= i < args.len(),
    ensures
        expand_flags(args).0.len() == args.len(),
        options_open(args, i) ==> {
            let out = expand_flags(args).0[i];
            &&& args[i] == Some("-ns"@) ==> out == Some("--no-skills"@)
            &&& args[i] == Some("-nc"@) ==> out == Some("--no-context-files"@)
            &&& args[i] == Some("-ne"@) ==> out == Some("--no-extensions"@)
            &&& args[i] == Some("-nt"@) ==> out == Some("--no-tools"@)
            &&& args[i] == Some("-nbt"@) ==> out == Some("--no-builtin-tools"@)
            &&& args[i] == Some("-xt"@) ==> out == Some("--exclude-tools"@)
            &&& args[i] == Some("-na"@) ==> out == Some("--no-approve"@)
        },
        !options_open(args, i) ==> expand_flags(args).0[i] == args[i],
        (forall|f: Seq<char>|
            args[i] == Some(f) ==> f != "-ns"@ && f != "-nc"@ && f != "-ne"@ && f != "-nt"@ && f != "-nbt"@ && f
                != "-xt"@ && f != "-na"@) ==> expand_flags(args).0[i] == args[i],
{
    lemma_expand_shape(args);
    reveal_strlit("-ns");
    reveal_strlit("-nc");
    reveal_strlit("-ne");
    reveal_strlit("-nt");
    reveal_strlit("-nbt");
    reveal_strlit("-xt");
    reveal_strlit("-na");
    reveal_strlit("--");
    assert("-ns"@[2] == 's' && "-nc"@[2] == 'c' && "-ne"@[2] == 'e' && "-nt"@[2] == 't');
    assert("-nbt"@.len() == 4 && "-xt"@[1] == 'x' && "-na"@[2] == 'a' && "-nt"@.len() == 3);
    assert(compound_flag("-ns"@) == Some("--no-skills"@));
    assert(compound_flag("-nc"@) == Some("--no-context-files"@));
    assert(compound_flag("-ne"@) == Some("--no-extensions"@));
    assert(compound_flag("-nt"@) == Some("--no-tools"@));
    assert(compound_flag("-nbt"@) == Some("--no-builtin-tools"@));
    assert(compound_flag("-xt"@) == Some("--exclude-tools"@));
    assert(compound_flag("-na"@) == Some("--no-approve"@));
    assert("--"@.len() == 2 && "-xt"@.len() == 3 && "-na"@.len() == 3 && "-ns"@.len() == 3);
    assert("-nc"@.len() == 3 && "-ne"@.len() == 3);
    assert("-ns"@ != "--"@ && "-nc"@ != "--"@ && "-ne"@ != "--"@ && "-nt"@ != "--"@);
    assert("-nbt"@ != "--"@ && "-xt"@ != "--"@ && "-na"@ != "--"@);
    let out = expand_flags(args).0[i];
}


/// A default-on switch is turned off exactly by `0`, `false`, `off` or `no`
/// (ASCII case ignored, surrounding whitespace ignored); unset, it is on.
/// A default-off switch is turned on exactly by `1`, `true`, `on` or `yes`
/// (the same way); unset, it is off.
pub proof fn law_env_switch_words(v: Seq<char>)
    ensures
        default_on_spec(None),
        !default_off_spec(None),
        !default_on_spec(Some(v)) <==> (lower(trim(v)) == "0"@ || lower(trim(v)) == "false"@ || lower(trim(v)) == "off"@
            || lower(trim(v)) == "no"@),
        default_off_spec(Some(v)) <==> (lower(trim(v)) == "1"@ || lower(trim(v)) == "true"@ || lower(trim(v)) == "on"@
            || lower(trim(v)) == "yes"@),
{
    reveal_strlit("0");
    reveal_strlit("false");
    reveal_strlit("off");
    reveal_strlit("no");
    let t = trim(v);
    assert(lower("0"@) =~= "0"@);
    assert(lower("false"@) =~= "false"@);
    assert(lower("off"@) =~= "off"@);
    assert(lower("no"@) =~= "no"@);
}

} // verus!
