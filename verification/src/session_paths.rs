//! Where Pi keeps its session files.
//!
//! The directory is the last `--session-dir` argument handed to Pi, else the
//! `PI_CODING_AGENT_SESSION_DIR` setting when it is not blank, else
//! `sessions` under Pi's agent home.  A configured path may start with `~`
//! (the user's home) and is taken relative to the working directory.  The
//! environment is read by the caller and handed in as plain values.
use crate::path::{join, join_spec};
use crate::queue_bridge::opt_view;
use crate::text::{
    chars_of, has_prefix, is_blank, starts_with, str_eq, string_of_range, to_owned, trim, trim_str,
};
use vstd::prelude::*;

verus! {

/// The value after the last `--session-dir` among the windows
/// `(args[i], args[i + 1])` with `i + 1 < k`.
pub open spec fn session_dir_arg_upto(args: Seq<String>, k: int) -> Option<Seq<char>>
    decreases k,
{
    if k < 2 {
        None
    } else if args[k - 2]@ == "--session-dir"@ {
        Some(args[k - 1]@)
    } else {
        session_dir_arg_upto(args, k - 1)
    }
}

/// The value after the last `--session-dir` flag of `args` that has one.
pub open spec fn session_dir_arg(args: Seq<String>) -> Option<Seq<char>> {
    session_dir_arg_upto(args, args.len() as int)
}

/// `~/rest` and `~` expanded against the home directory, when it is known.
pub open spec fn expand_home_spec(p: Seq<char>, home: Option<Seq<char>>) -> Seq<char> {
    match home {
        Some(h) => if has_prefix(p, "~/"@) {
            join_spec(h, p.skip(2))
        } else if p == "~"@ {
            h
        } else {
            p
        },
        None => p,
    }
}

/// A configured path, trimmed, home-expanded and taken relative to `cwd`
/// unless it is absolute.
pub open spec fn resolve_pi_path_spec(
    path: Seq<char>,
    cwd: Seq<char>,
    home: Option<Seq<char>>,
) -> Seq<char> {
    join_spec(cwd, expand_home_spec(trim(path), home))
}

/// Pi's agent home when nothing resolved it: `~/.pi/agent`, or `.pi/agent`
/// without a home directory.
pub open spec fn fallback_agent_dir(home: Option<Seq<char>>) -> Seq<char> {
    match home {
        Some(h) => join_spec(h, ".pi/agent"@),
        None => ".pi/agent"@,
    }
}

/// The session directory Pi uses.
pub open spec fn pi_session_dir_spec(
    args: Seq<String>,
    cwd: Seq<char>,
    env_dir: Option<Seq<char>>,
    home: Option<Seq<char>>,
    agent_dir: Option<Seq<char>>,
) -> Seq<char> {
    match session_dir_arg(args) {
        Some(p) => resolve_pi_path_spec(p, cwd, home),
        None => match env_dir {
            Some(e) if trim(e).len() > 0 => resolve_pi_path_spec(e, cwd, home),
            _ => join_spec(
                match agent_dir {
                    Some(a) => a,
                    None => fallback_agent_dir(home),
                },
                "sessions"@,
            ),
        },
    }
}

/// The value after the last `--session-dir` flag of Pi's arguments.
pub fn last_session_dir_arg(args: &Vec<String>) -> (r: Option<String>)
    ensures
        opt_view(r) == session_dir_arg(args@),
{
    let mut k = args.len();
    while k >= 2
        invariant
            k <= args.len(),
            session_dir_arg_upto(args@, k as int) == session_dir_arg(args@),
        decreases k,
    {
        if str_eq(args[k - 2].as_str(), "--session-dir") {
            return Some(args[k - 1].clone());
        }
        k = k - 1;
    }
    None
}

/// `~/rest` and `~` expanded against `home`.
pub fn expand_home(p: &str, home: &Option<String>) -> (r: String)
    ensures
        r@ == expand_home_spec(p@, opt_view(*home)),
{
    match home {
        Some(h) => {
            if starts_with(p, "~/") {
                proof {
                    reveal_strlit("~/");
                }
                let v = chars_of(p);
                let rest = string_of_range(&v, 2, v.len());
                assert(rest@ =~= p@.skip(2));
                join(h.as_str(), rest.as_str())
            } else if str_eq(p, "~") {
                h.clone()
            } else {
                to_owned(p)
            }
        },
        None => to_owned(p),
    }
}

/// A configured Pi path resolved against the working directory.
pub fn resolve_pi_path(path: &str, cwd: &str, home: &Option<String>) -> (r: String)
    ensures
        r@ == resolve_pi_path_spec(path@, cwd@, opt_view(*home)),
{
    let t = trim_str(path);
    let e = expand_home(t.as_str(), home);
    join(cwd, e.as_str())
}

/// The session directory Pi uses, given its arguments, the working
/// directory, the `PI_CODING_AGENT_SESSION_DIR` setting, the home directory
/// and Pi's resolved agent home, each where known.
pub fn pi_session_dir(
    pi_args: &Vec<String>,
    cwd: &str,
    env_dir: &Option<String>,
    home: &Option<String>,
    agent_dir: &Option<String>,
) -> (r: String)
    ensures
        r@ == pi_session_dir_spec(pi_args@, cwd@, opt_view(*env_dir), opt_view(*home), opt_view(*agent_dir)),
{
    match last_session_dir_arg(pi_args) {
        Some(p) => resolve_pi_path(p.as_str(), cwd, home),
        None => {
            if let Some(e) = env_dir {
                if !is_blank(e.as_str()) {
                    return resolve_pi_path(e.as_str(), cwd, home);
                }
            }
            let agent = match agent_dir {
                Some(a) => a.clone(),
                None => match home {
                    Some(h) => join(h.as_str(), ".pi/agent"),
                    None => to_owned(".pi/agent"),
                },
            };
            join(agent.as_str(), "sessions")
        },
    }
}


proof fn lemma_last_flag(args: Seq<String>, i: int, k: int)
    requires
        0 <= i,
        i + 1 < k <= args.len(),
        args[i]@ == "--session-dir"@,
        forall|j: int| i < j < args.len() - 1 ==> (#[trigger] args[j])@ != "--session-dir"@,
    ensures
        session_dir_arg_upto(args, k) == Some(args[i + 1]@),
    decreases k,
{
    if k - 2 != i {
        lemma_last_flag(args, i, k - 1);
    }
}

proof fn lemma_no_flag(args: Seq<String>, k: int)
    requires
        k <= args.len(),
        forall|j: int| 0 <= j < args.len() - 1 ==> (#[trigger] args[j])@ != "--session-dir"@,
    ensures
        session_dir_arg_upto(args, k) is None,
    decreases k,
{
    if k >= 2 {
        lemma_no_flag(args, k - 1);
    }
}

/// An explicit `--session-dir <dir>` wins: when the last `--session-dir`
/// that has a value is at index `i`, the session directory is that value
/// resolved against the working directory, whatever the environment and
/// the agent home say.
pub proof fn law_session_dir_argument_wins(
    args: Seq<String>,
    i: int,
    cwd: Seq<char>,
    env_dir: Option<Seq<char>>,
    home: Option<Seq<char>>,
    agent_dir: Option<Seq<char>>,
)
    requires
        0 <= i,
        i + 1 < args.len(),
        args[i]@ == "--session-dir"@,
        forall|j: int| i < j < args.len() - 1 ==> (#[trigger] args[j])@ != "--session-dir"@,
    ensures
        pi_session_dir_spec(args, cwd, env_dir, home, agent_dir) == resolve_pi_path_spec(args[i + 1]@, cwd, home),
{
    lemma_last_flag(args, i, args.len() as int);
}

/// Without a `--session-dir` argument, a non-blank session-directory
/// setting of the environment decides, resolved against the working
/// directory; without either, it is `sessions` under the agent home.
pub proof fn law_session_dir_from_environment(
    args: Seq<String>,
    cwd: Seq<char>,
    env_dir: Option<Seq<char>>,
    home: Option<Seq<char>>,
    agent_dir: Option<Seq<char>>,
)
    requires
        forall|j: int| 0 <= j < args.len() - 1 ==> (#[trigger] args[j])@ != "--session-dir"@,
    ensures
        (env_dir matches Some(e) && trim(e).len() > 0) ==> pi_session_dir_spec(args, cwd, env_dir, home, agent_dir)
            == resolve_pi_path_spec(env_dir.unwrap(), cwd, home),
        !(env_dir matches Some(e) && trim(e).len() > 0) ==> pi_session_dir_spec(args, cwd, env_dir, home, agent_dir)
            == join_spec(
            match agent_dir {
                Some(a) => a,
                None => fallback_agent_dir(home),
            },
            "sessions"@,
        ),
{
    lemma_no_flag(args, args.len() as int);
}

/// `~` stands for the home directory: `~` alone is the home, `~/rest` is
/// `rest` under the home, and a path that does not start with `~` is left
/// as it is (as is everything when the home is unknown).
pub proof fn law_tilde_is_home(h: Seq<char>, rest: Seq<char>, p: Seq<char>)
    ensures
        expand_home_spec("~"@, Some(h)) == h,
        expand_home_spec("~/"@ + rest, Some(h)) == join_spec(h, rest),
        (p.len() == 0 || p[0] != '~') ==> expand_home_spec(p, Some(h)) == p,
        expand_home_spec(p, None) == p,
{
    reveal_strlit("~");
    reveal_strlit("~/");
    assert(("~/"@ + rest).take(2) =~= "~/"@);
    assert(("~/"@ + rest).skip(2) =~= rest);
    assert("~"@ != "~/"@ + rest) by {
        assert(("~/"@ + rest).len() >= 2);
    }
    assert(!has_prefix("~"@, "~/"@));
    if p.len() == 0 || p[0] != '~' {
        if has_prefix(p, "~/"@) {
            assert(p[0] == p.take(2)[0]);
        }
        if p == "~"@ {
            assert(p[0] == '~');
        }
    }
}

} // verus!
