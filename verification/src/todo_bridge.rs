//! Pi todo-plugin tool results projected onto the pager's plan (its todo
//! pane): a full snapshot of the tasks replaces the plan.
use crate::json::{
    bool_of, field, get_str, i64_of, json_model, member_models, opt_deref, str_of, u64_of, Json, JsonModel,
    JsonNumber,
};
use crate::text::{decimal, str_eq, to_owned, trim, trim_str, u64_to_string, i64_to_string};
use vstd::prelude::*;

verus! {

/// The state of a plan entry.
#[derive(Debug, Clone, Copy, PartialEq, Eq, Structural)]
pub enum PlanEntryStatus {
    Pending,
    InProgress,
    Completed,
}

/// The priority of a plan entry.
#[derive(Debug, Clone, Copy, PartialEq, Eq, Structural)]
pub enum PlanEntryPriority {
    High,
    Medium,
    Low,
}

/// One entry of the plan.
#[derive(Debug)]
pub struct PlanEntry {
    pub content: String,
    pub priority: PlanEntryPriority,
    pub status: PlanEntryStatus,
    /// Extra fields the pane shows (the task's id, active form, owner and
    /// blockers), when there are any.
    pub meta: Option<Vec<(String, Json)>>,
}

/// An entry as values.
pub struct EntryView {
    pub content: Seq<char>,
    pub priority: PlanEntryPriority,
    pub status: PlanEntryStatus,
    pub meta: Option<Seq<(Seq<char>, JsonModel)>>,
}

pub open spec fn entry_view(e: PlanEntry) -> EntryView {
    EntryView {
        content: e.content@,
        priority: e.priority,
        status: e.status,
        meta: match e.meta {
            Some(m) => Some(member_models(m@)),
            None => None,
        },
    }
}

pub open spec fn entry_views(v: Seq<PlanEntry>) -> Seq<EntryView> {
    v.map_values(|e: PlanEntry| entry_view(e))
}

/// The tasks' details of a todo result: `details` of a live tool envelope,
/// or the value itself when it already is the details (history).
pub open spec fn rpiv_details(result: Json) -> Option<Json> {
    match field(result, "details"@) {
        Some(d) => Some(d),
        None => if field(result, "tasks"@) is Some {
            Some(result)
        } else {
            None
        },
    }
}

/// A trimmed string member, when not blank.
pub open spec fn nonblank(v: Json, key: Seq<char>) -> Option<Seq<char>> {
    match str_of(field(v, key)) {
        Some(s) => if trim(s).len() > 0 {
            Some(trim(s))
        } else {
            None
        },
        None => None,
    }
}

/// The number model of an `i64` id.
pub open spec fn i64_number(i: i64) -> JsonModel {
    JsonModel::Number(
        if i >= 0 { Some(i as u64) } else { None },
        Some(i),
        if i >= 0 { Some(i as u64) } else { None },
        if i < 0 { seq!['-'] + decimal((-i) as nat) } else { decimal(i as nat) },
    )
}

/// The number model of a `u64` id beyond `i64`.
pub open spec fn u64_number(u: u64) -> JsonModel {
    JsonModel::Number(Some(u), None, Some(u), decimal(u as nat))
}

/// `[(key, value)]` when there is a value.
pub open spec fn meta_if(key: Seq<char>, value: Option<JsonModel>) -> Seq<(Seq<char>, JsonModel)> {
    match value {
        Some(v) => seq![(key, v)],
        None => Seq::empty(),
    }
}

/// The extra fields of a task: its numeric id, active form, owner and
/// blockers.
pub open spec fn task_meta(task: Json) -> Seq<(Seq<char>, JsonModel)> {
    let id = match i64_of(field(task, "id"@)) {
        Some(i) => Some(i64_number(i)),
        None => match u64_of(field(task, "id"@)) {
            Some(u) => Some(u64_number(u)),
            None => None,
        },
    };
    let active = match nonblank(task, "activeForm"@) {
        Some(s) => Some(JsonModel::Str(s)),
        None => None,
    };
    let owner = match nonblank(task, "owner"@) {
        Some(s) => Some(JsonModel::Str(s)),
        None => None,
    };
    let blocked = match field(task, "blockedBy"@) {
        Some(Json::Array(b)) => Some(json_model(Json::Array(b))),
        _ => None,
    };
    meta_if("rpivId"@, id) + meta_if("activeForm"@, active) + meta_if("owner"@, owner) + meta_if("blockedBy"@, blocked)
}

/// The plan entry of a task: none for deleted tasks and tasks without a
/// subject; `in_progress` and `completed` keep their state, anything else is
/// pending.
pub open spec fn task_entry(task: Json) -> Option<EntryView> {
    let status = match str_of(field(task, "status"@)) {
        Some(s) => s,
        None => "pending"@,
    };
    if status == "deleted"@ {
        None
    } else {
        match nonblank(task, "subject"@) {
            None => None,
            Some(subject) => Some(
                EntryView {
                    content: subject,
                    priority: PlanEntryPriority::Medium,
                    status: if status == "in_progress"@ {
                        PlanEntryStatus::InProgress
                    } else if status == "completed"@ {
                        PlanEntryStatus::Completed
                    } else {
                        PlanEntryStatus::Pending
                    },
                    meta: if task_meta(task).len() == 0 {
                        None
                    } else {
                        Some(task_meta(task))
                    },
                },
            ),
        }
    }
}

/// The entries of the first `n` tasks.
pub open spec fn task_entries(tasks: Seq<Json>, n: int) -> Seq<EntryView>
    decreases n,
{
    if n <= 0 || n > tasks.len() {
        Seq::empty()
    } else {
        match task_entry(tasks[n - 1]) {
            Some(e) => task_entries(tasks, n - 1).push(e),
            None => task_entries(tasks, n - 1),
        }
    }
}

/// The plan that a todo tool result gives: only for the `todo` tool and a
/// result that is not an error, whose details hold no `error` and a list of
/// tasks.
pub open spec fn plan_spec(tool_name: Seq<char>, result: Json, is_error: bool) -> Option<Seq<EntryView>> {
    if tool_name != "todo"@ || is_error {
        None
    } else {
        match rpiv_details(result) {
            None => None,
            Some(d) => match field(d, "error"@) {
                Some(e) if !(e is Null) => None,
                _ => match field(d, "tasks"@) {
                    Some(Json::Array(tasks)) => Some(task_entries(tasks@, tasks@.len() as int)),
                    _ => None,
                },
            },
        }
    }
}

fn nonblank_exec(v: &Json, key: &str) -> (r: Option<String>)
    ensures
        crate::queue_bridge::opt_view(r) == nonblank(*v, key@),
{
    match get_str(v, key) {
        Some(s) => {
            let t = trim_str(s);
            if t.as_str().unicode_len() > 0 {
                Some(t)
            } else {
                None
            }
        },
        None => None,
    }
}

fn push_meta(meta: &mut Vec<(String, Json)>, key: &str, value: Option<Json>)
    ensures
        member_models(final(meta)@) == member_models(old(meta)@) + meta_if(
            key@,
            crate::json::opt_model(value),
        ),
{
    let ghost before = meta@;
    match value {
        Some(v) => {
            meta.push((to_owned(key), v));
        },
        None => {},
    }
    assert(member_models(meta@) =~= member_models(before) + meta_if(key@, crate::json::opt_model(value)));
}

fn task_meta_exec(task: &Json) -> (r: Vec<(String, Json)>)
    ensures
        member_models(r@) == task_meta(*task),
{
    let mut meta: Vec<(String, Json)> = Vec::new();
    let id: Option<Json> = match task.get("id") {
        Some(v) => match v.as_i64() {
            Some(i) => Some(
                Json::Number(
                    JsonNumber {
                        as_u64: if i >= 0 { Some(i as u64) } else { None },
                        as_i64: Some(i),
                        rounded: if i >= 0 { Some(i as u64) } else { None },
                        text: i64_to_string(i),
                    },
                ),
            ),
            None => match v.as_u64() {
                Some(u) => Some(Json::Number(JsonNumber { as_u64: Some(u), as_i64: None, rounded: Some(u), text: u64_to_string(u) })),
                None => None,
            },
        },
        None => None,
    };
    let active = match nonblank_exec(task, "activeForm") {
        Some(s) => Some(Json::Str(s)),
        None => None,
    };
    let owner = match nonblank_exec(task, "owner") {
        Some(s) => Some(Json::Str(s)),
        None => None,
    };
    let blocked = match task.get("blockedBy") {
        Some(Json::Array(b)) => Some(task.get("blockedBy").unwrap().deep_clone()),
        _ => None,
    };
    assert(member_models(meta@) =~= Seq::<(Seq<char>, JsonModel)>::empty());
    push_meta(&mut meta, "rpivId", id);
    push_meta(&mut meta, "activeForm", active);
    push_meta(&mut meta, "owner", owner);
    push_meta(&mut meta, "blockedBy", blocked);
    meta
}

fn task_entry_exec(task: &Json) -> (r: Option<PlanEntry>)
    ensures
        match r {
            Some(e) => task_entry(*task) == Some(entry_view(e)),
            None => task_entry(*task) is None,
        },
{
    let status = match get_str(task, "status") {
        Some(s) => s,
        None => "pending",
    };
    if str_eq(status, "deleted") {
        return None;
    }
    let subject = match nonblank_exec(task, "subject") {
        Some(s) => s,
        None => return None,
    };
    let plan_status = if str_eq(status, "in_progress") {
        PlanEntryStatus::InProgress
    } else if str_eq(status, "completed") {
        PlanEntryStatus::Completed
    } else {
        PlanEntryStatus::Pending
    };
    let meta = task_meta_exec(task);
    let meta = if meta.len() == 0 {
        None
    } else {
        Some(meta)
    };
    Some(PlanEntry { content: subject, priority: PlanEntryPriority::Medium, status: plan_status, meta })
}

/// The plan of a todo tool result (see [`plan_spec`]).
pub fn plan_update_for_tool(tool_name: &str, result: &Json, is_error: bool) -> (r: Option<Vec<PlanEntry>>)
    ensures
        match r {
            Some(entries) => plan_spec(tool_name@, *result, is_error) == Some(entry_views(entries@)),
            None => plan_spec(tool_name@, *result, is_error) is None,
        },
{
    if !str_eq(tool_name, "todo") || is_error {
        return None;
    }
    let details = match result.get("details") {
        Some(d) => d,
        None => if result.get("tasks").is_some() {
            result
        } else {
            return None;
        },
    };
    match details.get("error") {
        Some(e) => if !e.is_null() {
            return None;
        },
        None => {},
    }
    let tasks = match details.get("tasks") {
        Some(Json::Array(t)) => t,
        _ => return None,
    };
    let mut entries: Vec<PlanEntry> = Vec::new();
    let mut i: usize = 0;
    while i < tasks.len()
        invariant
            i <= tasks.len(),
            entry_views(entries@) == task_entries(tasks@, i as int),
        decreases tasks.len() - i,
    {
        match task_entry_exec(&tasks[i]) {
            Some(e) => {
                let ghost before = entries@;
                entries.push(e);
                assert(entry_views(entries@) =~= entry_views(before).push(entry_view(e)));
            },
            None => {},
        }
        i = i + 1;
    }
    Some(entries)
}

} // verus!
