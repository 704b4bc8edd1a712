//! The client's extension requests (`x.ai/…`, `pi/…`): which request a
//! method names and what its parameters ask for, or why they are refused.
//! Carrying a request out (an RPC round trip, a bridge command, a reply)
//! is the caller's.
use crate::json::{bool_of, field, first_str, get_bool, get_u64, opt_str_view, str1, str2, str3, u64_of, Json};
use crate::text::{is_blank, str_eq, to_owned, trim, trim_str};
use vstd::prelude::*;

verus! {

/// An extension request with its parameters read.
#[derive(Debug, Clone)]
pub enum ExtRequest {
    /// Steer the running turn (the parameters go to the steering handler).
    Interject,
    /// Move a foreground Bash call to the background.
    TerminalBackground,
    /// Kill a background task.
    TaskKill,
    /// Summarize the session.
    Recap,
    /// Compact the conversation, with custom instructions when given.
    Compact { custom_instructions: Option<String> },
    /// List the sessions of `cwd` (the working directory when `None`), or
    /// of every directory.
    SessionList { cwd: Option<String>, all: bool, use_psm_index: bool },
    /// Full-text search; an empty query answers with no results.
    SessionSearch { query: String, cwd: Option<String>, limit: u64 },
    SessionTree,
    NavigateTree { entry_id: String, summarize: bool, custom_instructions: Option<String> },
    /// Set an entry's label, or clear it (`None`).
    TreeLabel { entry_id: String, label: Option<String> },
    ForkMessages,
    Fork { entry_id: String },
    Clone,
    Reload,
    /// Set the follow-up (or, with `steering`, the steering) delivery mode.
    QueueMode { mode: String, steering: bool },
    RollbackPreview { entry_id: String },
    RollbackExecute { entry_id: String },
    Rename { title: String },
    SessionInfo,
    WorkflowsList,
    WorkflowLaunch { name: String, args: String },
    WorkflowPause { run_id: String },
    WorkflowStop { run_id: String },
    SubagentCancel { subagent_id: String },
}

/// Why a request is refused.
#[derive(Debug, Clone)]
pub enum ExtRefusal {
    /// Invalid parameters, with the message for the client.
    InvalidParams(String),
    /// No such method.
    MethodNotFound(String),
}

/// A request as values.
pub enum ExtRequestModel {
    Interject,
    TerminalBackground,
    TaskKill,
    Recap,
    Compact(Option<Seq<char>>),
    SessionList(Option<Seq<char>>, bool, bool),
    SessionSearch(Seq<char>, Option<Seq<char>>, u64),
    SessionTree,
    NavigateTree(Seq<char>, bool, Option<Seq<char>>),
    TreeLabel(Seq<char>, Option<Seq<char>>),
    ForkMessages,
    Fork(Seq<char>),
    Clone,
    Reload,
    QueueMode(Seq<char>, bool),
    RollbackPreview(Seq<char>),
    RollbackExecute(Seq<char>),
    Rename(Seq<char>),
    SessionInfo,
    WorkflowsList,
    WorkflowLaunch(Seq<char>, Seq<char>),
    WorkflowPause(Seq<char>),
    WorkflowStop(Seq<char>),
    SubagentCancel(Seq<char>),
}

/// A refusal as values: `Ok` for invalid parameters, `Err` for an unknown
/// method, each with its message.
pub open spec fn refusal_view(r: ExtRefusal) -> Result<Seq<char>, Seq<char>> {
    match r {
        ExtRefusal::InvalidParams(m) => Ok(m@),
        ExtRefusal::MethodNotFound(m) => Err(m@),
    }
}

/// The optional text's view.
pub open spec fn ov(o: Option<String>) -> Option<Seq<char>> {
    crate::queue_bridge::opt_view(o)
}

/// The model of a request.
pub open spec fn request_view(r: ExtRequest) -> ExtRequestModel {
    match r {
        ExtRequest::Interject => ExtRequestModel::Interject,
        ExtRequest::TerminalBackground => ExtRequestModel::TerminalBackground,
        ExtRequest::TaskKill => ExtRequestModel::TaskKill,
        ExtRequest::Recap => ExtRequestModel::Recap,
        ExtRequest::Compact { custom_instructions } => ExtRequestModel::Compact(ov(custom_instructions)),
        ExtRequest::SessionList { cwd, all, use_psm_index } => ExtRequestModel::SessionList(ov(cwd), all, use_psm_index),
        ExtRequest::SessionSearch { query, cwd, limit } => ExtRequestModel::SessionSearch(query@, ov(cwd), limit),
        ExtRequest::SessionTree => ExtRequestModel::SessionTree,
        ExtRequest::NavigateTree { entry_id, summarize, custom_instructions } => ExtRequestModel::NavigateTree(
            entry_id@,
            summarize,
            ov(custom_instructions),
        ),
        ExtRequest::TreeLabel { entry_id, label } => ExtRequestModel::TreeLabel(entry_id@, ov(label)),
        ExtRequest::ForkMessages => ExtRequestModel::ForkMessages,
        ExtRequest::Fork { entry_id } => ExtRequestModel::Fork(entry_id@),
        ExtRequest::Clone => ExtRequestModel::Clone,
        ExtRequest::Reload => ExtRequestModel::Reload,
        ExtRequest::QueueMode { mode, steering } => ExtRequestModel::QueueMode(mode@, steering),
        ExtRequest::RollbackPreview { entry_id } => ExtRequestModel::RollbackPreview(entry_id@),
        ExtRequest::RollbackExecute { entry_id } => ExtRequestModel::RollbackExecute(entry_id@),
        ExtRequest::Rename { title } => ExtRequestModel::Rename(title@),
        ExtRequest::SessionInfo => ExtRequestModel::SessionInfo,
        ExtRequest::WorkflowsList => ExtRequestModel::WorkflowsList,
        ExtRequest::WorkflowLaunch { name, args } => ExtRequestModel::WorkflowLaunch(name@, args@),
        ExtRequest::WorkflowPause { run_id } => ExtRequestModel::WorkflowPause(run_id@),
        ExtRequest::WorkflowStop { run_id } => ExtRequestModel::WorkflowStop(run_id@),
        ExtRequest::SubagentCancel { subagent_id } => ExtRequestModel::SubagentCancel(subagent_id@),
    }
}

/// A text that is not blank.
pub open spec fn non_blank(s: Option<Seq<char>>) -> Option<Seq<char>> {
    match s {
        Some(t) => if trim(t).len() > 0 {
            Some(t)
        } else {
            None
        },
        None => None,
    }
}

/// A required identifier: the text trimmed, when that is not empty.
pub open spec fn required(s: Option<Seq<char>>) -> Option<Seq<char>> {
    match s {
        Some(t) => if trim(t).len() > 0 {
            Some(trim(t))
        } else {
            None
        },
        None => None,
    }
}

/// A boolean parameter, `false` unless given.
pub open spec fn flag(p: Json, key: Seq<char>) -> bool {
    bool_of(field(p, key)) == Some(true)
}

/// The entry a tree request is about.
pub open spec fn entry_param(p: Json) -> Option<Seq<char>> {
    required(first_str(p, seq!["entryId"@, "id"@, "targetId"@]))
}

/// The outcome of a required parameter: the request, or the message.
pub open spec fn need(v: Option<Seq<char>>, message: Seq<char>, make: spec_fn(Seq<char>) -> ExtRequestModel) -> Result<
    ExtRequestModel,
    Result<Seq<char>, Seq<char>>,
> {
    match v {
        Some(t) => Ok(make(t)),
        None => Err(Ok(message)),
    }
}

/// What request `method` with parameters `p` is, or why it is refused.
pub open spec fn ext_request_spec(method: Seq<char>, p: Json) -> Result<ExtRequestModel, Result<Seq<char>, Seq<char>>> {
    if method == "x.ai/interject"@ {
        Ok(ExtRequestModel::Interject)
    } else if method == "x.ai/terminal/background"@ {
        Ok(ExtRequestModel::TerminalBackground)
    } else if method == "x.ai/task/kill"@ {
        Ok(ExtRequestModel::TaskKill)
    } else if method == "x.ai/recap"@ {
        Ok(ExtRequestModel::Recap)
    } else if method == "x.ai/compact_conversation"@ {
        Ok(ExtRequestModel::Compact(non_blank(first_str(p, seq!["customInstructions"@, "instructions"@, "context"@]))))
    } else if method == "pi/session/list"@ {
        Ok(
            ExtRequestModel::SessionList(
                non_blank(first_str(p, seq!["cwd"@])),
                first_str(p, seq!["scope"@]) == Some("all"@),
                flag(p, "usePsmIndex"@),
            ),
        )
    } else if method == "pi/session/search"@ {
        Ok(
            ExtRequestModel::SessionSearch(
                trim(crate::json::or_empty(first_str(p, seq!["query"@]))),
                non_blank(first_str(p, seq!["cwd"@])),
                match u64_of(field(p, "limit"@)) {
                    Some(n) => n,
                    None => 20,
                },
            ),
        )
    } else if method == "pi/session/tree"@ {
        Ok(ExtRequestModel::SessionTree)
    } else if method == "pi/session/navigate_tree"@ {
        need(
            entry_param(p),
            "entryId is required"@,
            |t: Seq<char>|
                ExtRequestModel::NavigateTree(
                    t,
                    flag(p, "summarize"@),
                    first_str(p, seq!["customInstructions"@, "instructions"@]),
                ),
        )
    } else if method == "pi/session/tree_label"@ {
        need(
            entry_param(p),
            "entryId is required"@,
            |t: Seq<char>|
                ExtRequestModel::TreeLabel(
                    t,
                    if flag(p, "clear"@) {
                        None
                    } else {
                        first_str(p, seq!["label"@, "text"@])
                    },
                ),
        )
    } else if method == "pi/session/fork_messages"@ {
        Ok(ExtRequestModel::ForkMessages)
    } else if method == "pi/session/fork"@ {
        need(entry_param(p), "entryId is required"@, |t: Seq<char>| ExtRequestModel::Fork(t))
    } else if method == "pi/session/clone"@ {
        Ok(ExtRequestModel::Clone)
    } else if method == "pi/session/reload"@ {
        Ok(ExtRequestModel::Reload)
    } else if method == "pi/queue/mode"@ {
        match first_str(p, seq!["mode"@]) {
            Some(m) if trim(m) == "all"@ || trim(m) == "one-at-a-time"@ => Ok(
                ExtRequestModel::QueueMode(trim(m), flag(p, "steering"@)),
            ),
            _ => Err(Ok("mode must be 'all' or 'one-at-a-time'"@)),
        }
    } else if method == "pi/session/rollback_preview"@ {
        need(entry_param(p), "entryId is required"@, |t: Seq<char>| ExtRequestModel::RollbackPreview(t))
    } else if method == "pi/session/rollback_execute"@ {
        need(entry_param(p), "entryId is required"@, |t: Seq<char>| ExtRequestModel::RollbackExecute(t))
    } else if method == "x.ai/session/rename"@ {
        need(
            required(first_str(p, seq!["title"@, "name"@])),
            "session title is empty"@,
            |t: Seq<char>| ExtRequestModel::Rename(t),
        )
    } else if method == "x.ai/session/info"@ {
        Ok(ExtRequestModel::SessionInfo)
    } else if method == "x.ai/workflows/list"@ {
        Ok(ExtRequestModel::WorkflowsList)
    } else if method == "x.ai/workflow/launch"@ {
        need(
            required(first_str(p, seq!["name"@, "workflow"@])),
            "name is required"@,
            |t: Seq<char>|
                ExtRequestModel::WorkflowLaunch(t, crate::json::or_empty(first_str(p, seq!["args"@, "input"@]))),
        )
    } else if method == "x.ai/workflow/pause"@ {
        need(
            required(first_str(p, seq!["runId"@, "run_id"@, "name"@])),
            "runId is required"@,
            |t: Seq<char>| ExtRequestModel::WorkflowPause(t),
        )
    } else if method == "x.ai/workflow/stop"@ {
        need(
            required(first_str(p, seq!["runId"@, "run_id"@, "name"@])),
            "runId is required"@,
            |t: Seq<char>| ExtRequestModel::WorkflowStop(t),
        )
    } else if method == "x.ai/subagent/cancel"@ {
        need(
            required(first_str(p, seq!["subagentId"@, "subagent_id"@])),
            "subagentId is required"@,
            |t: Seq<char>| ExtRequestModel::SubagentCancel(t),
        )
    } else {
        Err(Err("Method not found: "@ + method))
    }
}

/// The view of a parse outcome.
pub open spec fn outcome_view(r: Result<ExtRequest, ExtRefusal>) -> Result<ExtRequestModel, Result<Seq<char>, Seq<char>>> {
    match r {
        Ok(q) => Ok(request_view(q)),
        Err(e) => Err(refusal_view(e)),
    }
}

fn opt_owned(s: Option<&str>) -> (r: Option<String>)
    ensures
        ov(r) == opt_str_view(s),
{
    match s {
        Some(t) => Some(to_owned(t)),
        None => None,
    }
}

fn non_blank_exec(s: Option<&str>) -> (r: Option<String>)
    ensures
        ov(r) == non_blank(opt_str_view(s)),
{
    match s {
        Some(t) => if is_blank(t) {
            None
        } else {
            Some(to_owned(t))
        },
        None => None,
    }
}

fn required_exec(s: Option<&str>, message: &str) -> (r: Result<String, ExtRefusal>)
    ensures
        match r {
            Ok(t) => required(opt_str_view(s)) == Some(t@),
            Err(e) => required(opt_str_view(s)) is None && refusal_view(e) == Ok::<Seq<char>, Seq<char>>(message@),
        },
{
    match s {
        Some(t) => if is_blank(t) {
            Err(ExtRefusal::InvalidParams(to_owned(message)))
        } else {
            Ok(trim_str(t))
        },
        None => Err(ExtRefusal::InvalidParams(to_owned(message))),
    }
}

fn flag_exec(p: &Json, key: &str) -> (r: bool)
    ensures
        r == flag(*p, key@),
{
    get_bool(p, key) == Some(true)
}

fn entry_exec(p: &Json) -> (r: Result<String, ExtRefusal>)
    ensures
        match r {
            Ok(t) => entry_param(*p) == Some(t@),
            Err(e) => entry_param(*p) is None && refusal_view(e) == Ok::<Seq<char>, Seq<char>>("entryId is required"@),
        },
{
    required_exec(str3(p, "entryId", "id", "targetId"), "entryId is required")
}

/// Read extension request `method` with parameters `params` (see
/// [`ext_request_spec`]).
pub fn parse_ext_request(method: &str, params: &Json) -> (r: Result<ExtRequest, ExtRefusal>)
    ensures
        outcome_view(r) == ext_request_spec(method@, *params),
{
    let p = params;
    if str_eq(method, "x.ai/interject") {
        return Ok(ExtRequest::Interject);
    }
    if str_eq(method, "x.ai/terminal/background") {
        return Ok(ExtRequest::TerminalBackground);
    }
    if str_eq(method, "x.ai/task/kill") {
        return Ok(ExtRequest::TaskKill);
    }
    if str_eq(method, "x.ai/recap") {
        return Ok(ExtRequest::Recap);
    }
    if str_eq(method, "x.ai/compact_conversation") {
        return Ok(ExtRequest::Compact { custom_instructions: non_blank_exec(str3(p, "customInstructions", "instructions", "context")) });
    }
    if str_eq(method, "pi/session/list") {
        let all = match str1(p, "scope") {
            Some(s) => str_eq(s, "all"),
            None => false,
        };
        return Ok(ExtRequest::SessionList { cwd: non_blank_exec(str1(p, "cwd")), all, use_psm_index: flag_exec(p, "usePsmIndex") });
    }
    if str_eq(method, "pi/session/search") {
        let query = match str1(p, "query") {
            Some(q) => trim_str(q),
            None => String::new(),
        };
        proof {
            reveal_strlit("");
        }
        let limit = match get_u64(p, "limit") {
            Some(n) => n,
            None => 20,
        };
        return Ok(ExtRequest::SessionSearch { query, cwd: non_blank_exec(str1(p, "cwd")), limit });
    }
    if str_eq(method, "pi/session/tree") {
        return Ok(ExtRequest::SessionTree);
    }
    if str_eq(method, "pi/session/navigate_tree") {
        let entry_id = match entry_exec(p) {
            Ok(t) => t,
            Err(e) => return Err(e),
        };
        return Ok(
            ExtRequest::NavigateTree {
                entry_id,
                summarize: flag_exec(p, "summarize"),
                custom_instructions: opt_owned(str2(p, "customInstructions", "instructions")),
            },
        );
    }
    if str_eq(method, "pi/session/tree_label") {
        let entry_id = match entry_exec(p) {
            Ok(t) => t,
            Err(e) => return Err(e),
        };
        let label = if flag_exec(p, "clear") {
            None
        } else {
            opt_owned(str2(p, "label", "text"))
        };
        return Ok(ExtRequest::TreeLabel { entry_id, label });
    }
    if str_eq(method, "pi/session/fork_messages") {
        return Ok(ExtRequest::ForkMessages);
    }
    if str_eq(method, "pi/session/fork") {
        return match entry_exec(p) {
            Ok(entry_id) => Ok(ExtRequest::Fork { entry_id }),
            Err(e) => Err(e),
        };
    }
    if str_eq(method, "pi/session/clone") {
        return Ok(ExtRequest::Clone);
    }
    if str_eq(method, "pi/session/reload") {
        return Ok(ExtRequest::Reload);
    }
    if str_eq(method, "pi/queue/mode") {
        match str1(p, "mode") {
            Some(m) => {
                let t = trim_str(m);
                if str_eq(t.as_str(), "all") || str_eq(t.as_str(), "one-at-a-time") {
                    return Ok(ExtRequest::QueueMode { mode: t, steering: flag_exec(p, "steering") });
                }
            },
            None => {},
        }
        return Err(ExtRefusal::InvalidParams(to_owned("mode must be 'all' or 'one-at-a-time'")));
    }
    if str_eq(method, "pi/session/rollback_preview") {
        return match entry_exec(p) {
            Ok(entry_id) => Ok(ExtRequest::RollbackPreview { entry_id }),
            Err(e) => Err(e),
        };
    }
    if str_eq(method, "pi/session/rollback_execute") {
        return match entry_exec(p) {
            Ok(entry_id) => Ok(ExtRequest::RollbackExecute { entry_id }),
            Err(e) => Err(e),
        };
    }
    if str_eq(method, "x.ai/session/rename") {
        return match required_exec(str2(p, "title", "name"), "session title is empty") {
            Ok(title) => Ok(ExtRequest::Rename { title }),
            Err(e) => Err(e),
        };
    }
    if str_eq(method, "x.ai/session/info") {
        return Ok(ExtRequest::SessionInfo);
    }
    if str_eq(method, "x.ai/workflows/list") {
        return Ok(ExtRequest::WorkflowsList);
    }
    if str_eq(method, "x.ai/workflow/launch") {
        return match required_exec(str2(p, "name", "workflow"), "name is required") {
            Ok(name) => {
                let args = match str2(p, "args", "input") {
                    Some(a) => to_owned(a),
                    None => String::new(),
                };
                proof {
                    reveal_strlit("");
                }
                Ok(ExtRequest::WorkflowLaunch { name, args })
            },
            Err(e) => Err(e),
        };
    }
    if str_eq(method, "x.ai/workflow/pause") {
        return match required_exec(str3(p, "runId", "run_id", "name"), "runId is required") {
            Ok(run_id) => Ok(ExtRequest::WorkflowPause { run_id }),
            Err(e) => Err(e),
        };
    }
    if str_eq(method, "x.ai/workflow/stop") {
        return match required_exec(str3(p, "runId", "run_id", "name"), "runId is required") {
            Ok(run_id) => Ok(ExtRequest::WorkflowStop { run_id }),
            Err(e) => Err(e),
        };
    }
    if str_eq(method, "x.ai/subagent/cancel") {
        return match required_exec(str2(p, "subagentId", "subagent_id"), "subagentId is required") {
            Ok(subagent_id) => Ok(ExtRequest::SubagentCancel { subagent_id }),
            Err(e) => Err(e),
        };
    }
    let mut message = to_owned("Method not found: ");
    crate::text::push_str(&mut message, method);
    Err(ExtRefusal::MethodNotFound(message))
}

} // verus!
