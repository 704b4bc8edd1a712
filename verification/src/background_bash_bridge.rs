//! Pi's background-Bash messages projected onto Grok's background-task
//! updates.
use crate::json::{
    bool_of, field, get_bool, get_str, json_model, member_models, object, opt_deref, or_empty,
    str_of, text_value, Json, JsonModel,
};
use crate::model::member_or_self;
use crate::text::{str_eq, to_owned, trim, trim_str};
use vstd::prelude::*;

verus! {

/// The custom message type of the background-Bash extension.
pub const BRIDGE_TYPE: &'static str = "pi-grok-background-bash/v1";

/// A background-Bash task event.
#[derive(Debug)]
pub enum BackgroundBashProjection {
    Started {
        task_id: String,
        tool_call_id: String,
        command: String,
        cwd: String,
        output_file: String,
        description: Option<String>,
    },
    Completed { tool_call_id: String, task_snapshot: Json },
}

/// A task event as values.
pub enum ProjectionView {
    Started(Seq<char>, Seq<char>, Seq<char>, Seq<char>, Seq<char>, Option<Seq<char>>),
    Completed(Seq<char>, JsonModel),
}

pub open spec fn projection_view(p: BackgroundBashProjection) -> ProjectionView {
    match p {
        BackgroundBashProjection::Started { task_id, tool_call_id, command, cwd, output_file, description } =>
            ProjectionView::Started(
            task_id@,
            tool_call_id@,
            command@,
            cwd@,
            output_file@,
            crate::queue_bridge::opt_view(description),
        ),
        BackgroundBashProjection::Completed { tool_call_id, task_snapshot } => ProjectionView::Completed(
            tool_call_id@,
            json_model(task_snapshot),
        ),
    }
}

pub open spec fn opt_projection_view(p: Option<BackgroundBashProjection>) -> Option<ProjectionView> {
    match p {
        Some(x) => Some(projection_view(x)),
        None => None,
    }
}

/// A string member, trimmed, when that is not empty.
pub open spec fn required_spec(v: Json, key: Seq<char>) -> Option<Seq<char>> {
    match str_of(field(v, key)) {
        Some(s) => if trim(s).len() > 0 {
            Some(trim(s))
        } else {
            None
        },
        None => None,
    }
}

fn required_string(v: &Json, key: &str) -> (r: Option<String>)
    ensures
        crate::queue_bridge::opt_view(r) == required_spec(*v, key@),
{
    match get_str(v, key) {
        Some(s) => {
            let t = trim_str(s);
            if t.as_str().unicode_len() > 0 {
                Some(t)
            } else {
                None
            }
        },
        None => None,
    }
}

/// A `started` task from the event's details: every field present (and not
/// blank) but the description.
pub open spec fn started_spec(d: Json, tool_call_id: Option<Seq<char>>, description: Option<Seq<char>>) -> Option<ProjectionView> {
    match (required_spec(d, "taskId"@), tool_call_id, required_spec(d, "command"@), required_spec(d, "cwd"@), required_spec(d, "outputFile"@)) {
        (Some(t), Some(c), Some(cmd), Some(cwd), Some(out)) => Some(ProjectionView::Started(t, c, cmd, cwd, out, description)),
        _ => None,
    }
}

/// The task event that a Pi `message_end` event carries: only custom
/// messages of the background-Bash extension count; a `started` event needs
/// all its fields, a `completed` one a tool call id and a snapshot with a
/// `task_id`.
pub open spec fn message_projection(event: Json) -> Option<ProjectionView> {
    let m = member_or_self(event, "message"@);
    if str_of(field(m, "role"@)) != Some("custom"@) || str_of(field(m, "customType"@)) != Some(BRIDGE_TYPE@) {
        None
    } else {
        let d = member_or_self(m, "details"@);
        match str_of(field(d, "event"@)) {
            Some(e) => if e == "started"@ {
                started_spec(d, required_spec(d, "toolCallId"@), required_spec(d, "description"@))
            } else if e == "completed"@ {
                match field(d, "taskSnapshot"@) {
                    Some(snap) => if str_of(field(snap, "task_id"@)) is None {
                        None
                    } else {
                        match required_spec(d, "toolCallId"@) {
                            Some(c) => Some(ProjectionView::Completed(c, json_model(snap))),
                            None => None,
                        }
                    },
                    None => None,
                }
            } else {
                None
            },
            None => None,
        }
    }
}

fn started_exec(d: &Json, tool_call_id: Option<String>, description: Option<String>) -> (r: Option<BackgroundBashProjection>)
    ensures
        opt_projection_view(r) == started_spec(
            *d,
            crate::queue_bridge::opt_view(tool_call_id),
            crate::queue_bridge::opt_view(description),
        ),
{
    let task_id = required_string(d, "taskId");
    let command = required_string(d, "command");
    let cwd = required_string(d, "cwd");
    let output_file = required_string(d, "outputFile");
    match (task_id, tool_call_id, command, cwd, output_file) {
        (Some(task_id), Some(tool_call_id), Some(command), Some(cwd), Some(output_file)) => Some(
            BackgroundBashProjection::Started { task_id, tool_call_id, command, cwd, output_file, description },
        ),
        _ => None,
    }
}

/// Read the task event of a Pi `message_end` event (see
/// [`message_projection`]).
pub fn parse_background_bash_message(event: &Json) -> (r: Option<BackgroundBashProjection>)
    ensures
        opt_projection_view(r) == message_projection(*event),
{
    let m = match event.get("message") {
        Some(x) => x,
        None => event,
    };
    let role_ok = match get_str(m, "role") {
        Some(r) => str_eq(r, "custom"),
        None => false,
    };
    let type_ok = match get_str(m, "customType") {
        Some(t) => str_eq(t, BRIDGE_TYPE),
        None => false,
    };
    if !role_ok || !type_ok {
        return None;
    }
    let d = match m.get("details") {
        Some(x) => x,
        None => m,
    };
    let e = match get_str(d, "event") {
        Some(e) => e,
        None => return None,
    };
    if str_eq(e, "started") {
        started_exec(d, required_string(d, "toolCallId"), required_string(d, "description"))
    } else if str_eq(e, "completed") {
        let snap = match d.get("taskSnapshot") {
            Some(s) => s,
            None => return None,
        };
        if get_str(snap, "task_id").is_none() {
            return None;
        }
        match required_string(d, "toolCallId") {
            Some(c) => Some(BackgroundBashProjection::Completed { tool_call_id: c, task_snapshot: snap.deep_clone() }),
            None => None,
        }
    } else {
        None
    }
}

/// The task that a `bash` tool result registers when it ran in the
/// background: the description from the result, else the call's
/// `description`, else its `task_name`.
pub open spec fn tool_result_projection(tool_name: Seq<char>, tool_call_id: Seq<char>, args: Option<Json>, result: Json) -> Option<ProjectionView> {
    if tool_name != "bash"@ {
        None
    } else {
        match field(result, "details"@) {
            None => None,
            Some(d) => if bool_of(field(d, "background"@)) != Some(true) {
                None
            } else {
                let description = match required_spec(d, "description"@) {
                    Some(x) => Some(x),
                    None => match args {
                        Some(a) => match required_spec(a, "description"@) {
                            Some(x) => Some(x),
                            None => required_spec(a, "task_name"@),
                        },
                        None => None,
                    },
                };
                started_spec(d, Some(tool_call_id), description)
            },
        }
    }
}

/// Read the background task that a tool result registers (see
/// [`tool_result_projection`]).
pub fn parse_background_bash_tool_result(tool_name: &str, tool_call_id: &str, args: Option<&Json>, result: &Json) -> (r: Option<BackgroundBashProjection>)
    ensures
        opt_projection_view(r) == tool_result_projection(tool_name@, tool_call_id@, opt_deref(args), *result),
{
    if !str_eq(tool_name, "bash") {
        return None;
    }
    let d = match result.get("details") {
        Some(d) => d,
        None => return None,
    };
    if get_bool(d, "background") != Some(true) {
        return None;
    }
    let description = match required_string(d, "description") {
        Some(x) => Some(x),
        None => match args {
            Some(a) => match required_string(a, "description") {
                Some(x) => Some(x),
                None => required_string(a, "task_name"),
            },
            None => None,
        },
    };
    started_exec(d, Some(to_owned(tool_call_id)), description)
}

/// The session notification for a task event: its method and payload.
pub open spec fn notification_spec(session_id: Seq<char>, p: ProjectionView) -> (Seq<char>, JsonModel) {
    match p {
        ProjectionView::Started(task_id, tool_call_id, command, cwd, output_file, description) => (
            "x.ai/task_backgrounded"@,
            JsonModel::Object(
                seq![
                    ("sessionId"@, JsonModel::Str(session_id)),
                    (
                        "update"@,
                        JsonModel::Object(
                            seq![
                                ("sessionUpdate"@, JsonModel::Str("task_backgrounded"@)),
                                ("tool_call_id"@, JsonModel::Str(tool_call_id)),
                                ("task_id"@, JsonModel::Str(task_id)),
                                ("command"@, JsonModel::Str(command)),
                                ("cwd"@, JsonModel::Str(cwd)),
                                ("output_file"@, JsonModel::Str(output_file)),
                                (
                                    "description"@,
                                    match description {
                                        Some(d) => JsonModel::Str(d),
                                        None => JsonModel::Null,
                                    },
                                ),
                            ],
                        ),
                    ),
                ],
            ),
        ),
        ProjectionView::Completed(_, snapshot) => (
            "x.ai/task_completed"@,
            JsonModel::Object(
                seq![
                    ("sessionId"@, JsonModel::Str(session_id)),
                    (
                        "update"@,
                        JsonModel::Object(
                            seq![
                                ("sessionUpdate"@, JsonModel::Str("task_completed"@)),
                                ("task_snapshot"@, snapshot),
                                ("will_wake"@, JsonModel::Bool(false)),
                            ],
                        ),
                    ),
                ],
            ),
        ),
    }
}

fn member(key: &str, value: Json) -> (r: (String, Json))
    ensures
        r.0@ == key@,
        r.1 == value,
{
    (to_owned(key), value)
}

/// The session notification of a task event (see [`notification_spec`]).
pub fn background_bash_notification(session_id: &str, projection: &BackgroundBashProjection) -> (r: (&'static str, Json))
    ensures
        (r.0@, r.1@) == notification_spec(session_id@, projection_view(*projection)),
{
    match projection {
        BackgroundBashProjection::Started { task_id, tool_call_id, command, cwd, output_file, description } => {
            let mut update: Vec<(String, Json)> = Vec::new();
            update.push(member("sessionUpdate", text_value("task_backgrounded")));
            update.push(member("tool_call_id", text_value(tool_call_id.as_str())));
            update.push(member("task_id", text_value(task_id.as_str())));
            update.push(member("command", text_value(command.as_str())));
            update.push(member("cwd", text_value(cwd.as_str())));
            update.push(member("output_file", text_value(output_file.as_str())));
            let d = match description {
                Some(d) => text_value(d.as_str()),
                None => Json::Null,
            };
            update.push(member("description", d));
            let ghost u = update@;
            let update_value = object(update);
            let mut outer: Vec<(String, Json)> = Vec::new();
            outer.push(member("sessionId", text_value(session_id)));
            outer.push(member("update", update_value));
            let ghost o = outer@;
            let payload = object(outer);
            proof {
                assert(member_models(u) =~= notification_spec(session_id@, projection_view(*projection)).1->Object_0[1].1->Object_0);
                assert(member_models(o) =~= notification_spec(session_id@, projection_view(*projection)).1->Object_0);
            }
            ("x.ai/task_backgrounded", payload)
        },
        BackgroundBashProjection::Completed { task_snapshot, .. } => {
            let mut update: Vec<(String, Json)> = Vec::new();
            update.push(member("sessionUpdate", text_value("task_completed")));
            update.push(member("task_snapshot", task_snapshot.deep_clone()));
            update.push(member("will_wake", Json::Bool(false)));
            let ghost u = update@;
            let update_value = object(update);
            let mut outer: Vec<(String, Json)> = Vec::new();
            outer.push(member("sessionId", text_value(session_id)));
            outer.push(member("update", update_value));
            let ghost o = outer@;
            let payload = object(outer);
            proof {
                assert(member_models(u) =~= notification_spec(session_id@, projection_view(*projection)).1->Object_0[1].1->Object_0);
                assert(member_models(o) =~= notification_spec(session_id@, projection_view(*projection)).1->Object_0);
            }
            ("x.ai/task_completed", payload)
        },
    }
}

/// The cumulative output update sent before a task's completion: the
/// snapshot's output (empty without one) and truncation flag.
pub open spec fn output_update_spec(p: ProjectionView) -> Option<JsonModel> {
    match p {
        ProjectionView::Completed(tool_call_id, snapshot) => Some(
            JsonModel::Object(
                seq![
                    ("toolCallId"@, JsonModel::Str(tool_call_id)),
                    (
                        "rawOutput"@,
                        JsonModel::Object(
                            seq![
                                ("type"@, JsonModel::Str("Bash"@)),
                                ("output_for_prompt"@, JsonModel::Str(snapshot_output(snapshot))),
                                ("truncated"@, JsonModel::Bool(snapshot_truncated(snapshot))),
                            ],
                        ),
                    ),
                ],
            ),
        ),
        ProjectionView::Started(..) => None,
    }
}

/// The `output` text of a snapshot (empty without one).
pub open spec fn snapshot_output(snapshot: JsonModel) -> Seq<char> {
    match snapshot {
        JsonModel::Object(ms) => match model_member(ms, "output"@) {
            Some(JsonModel::Str(s)) => s,
            _ => Seq::empty(),
        },
        _ => Seq::empty(),
    }
}

/// The `truncated` flag of a snapshot (false without one).
pub open spec fn snapshot_truncated(snapshot: JsonModel) -> bool {
    match snapshot {
        JsonModel::Object(ms) => model_member(ms, "truncated"@) == Some(JsonModel::Bool(true)),
        _ => false,
    }
}

/// The member `key` of an object's members, as mathematical objects.
pub open spec fn model_member(ms: Seq<(Seq<char>, JsonModel)>, key: Seq<char>) -> Option<JsonModel>
    decreases ms.len(),
{
    if ms.len() == 0 {
        None
    } else if ms[0].0 == key {
        Some(ms[0].1)
    } else {
        model_member(ms.drop_first(), key)
    }
}

proof fn lemma_model_member(members: Seq<(String, Json)>, key: Seq<char>, n: int)
    requires
        0 <= n <= members.len(),
    ensures
        model_member(member_models(members.skip(n)), key) == crate::json::opt_model(
            crate::json::find_member(members.skip(n), key),
        ),
    decreases members.len() - n,
{
    if n < members.len() {
        lemma_model_member(members, key, n + 1);
        assert(members.skip(n).drop_first() =~= members.skip(n + 1));
        assert(member_models(members.skip(n)).drop_first() =~= member_models(members.skip(n + 1)));
    } else {
        assert(members.skip(n) =~= Seq::<(String, Json)>::empty());
        assert(member_models(members.skip(n)) =~= Seq::<(Seq<char>, JsonModel)>::empty());
    }
}

/// The member `key` of a value, read through the value's model.
pub proof fn lemma_field_model(v: Json, key: Seq<char>)
    ensures
        (match json_model(v) {
            JsonModel::Object(ms) => model_member(ms, key),
            _ => None,
        }) == crate::json::opt_model(field(v, key)),
{
    if let Json::Object(members) = v {
        crate::json::lemma_object_model(v);
        lemma_model_member(members@, key, 0);
        assert(members@.skip(0) =~= members@);
    }
}

/// The cumulative output update of a completed task (see
/// [`output_update_spec`]).
pub fn background_bash_output_update(projection: &BackgroundBashProjection) -> (r: Option<Json>)
    ensures
        crate::json::opt_model(r) == output_update_spec(projection_view(*projection)),
{
    match projection {
        BackgroundBashProjection::Completed { tool_call_id, task_snapshot } => {
            let output = match get_str(task_snapshot, "output") {
                Some(s) => s,
                None => "",
            };
            let truncated = get_bool(task_snapshot, "truncated") == Some(true);
            proof {
                reveal_strlit("");
                lemma_field_model(*task_snapshot, "output"@);
                lemma_field_model(*task_snapshot, "truncated"@);
                assert(output@ == snapshot_output(json_model(*task_snapshot)));
                assert(truncated == snapshot_truncated(json_model(*task_snapshot)));
            }
            let mut raw: Vec<(String, Json)> = Vec::new();
            raw.push(member("type", text_value("Bash")));
            raw.push(member("output_for_prompt", text_value(output)));
            raw.push(member("truncated", Json::Bool(truncated)));
            let ghost rv = raw@;
            let raw_value = object(raw);
            let mut outer: Vec<(String, Json)> = Vec::new();
            outer.push(member("toolCallId", text_value(tool_call_id.as_str())));
            outer.push(member("rawOutput", raw_value));
            let ghost o = outer@;
            let update = object(outer);
            proof {
                let expected = output_update_spec(projection_view(*projection)).unwrap();
                assert(member_models(rv) =~= expected->Object_0[1].1->Object_0);
                assert(member_models(o) =~= expected->Object_0);
            }
            Some(update)
        },
        BackgroundBashProjection::Started { .. } => None,
    }
}


// ─── Control requests to the Bash extension ──────────────────────────────────

/// Whether the metadata's list `key` holds the string `id`.
pub open spec fn lists_id(meta: Json, key: Seq<char>, id: Seq<char>) -> bool {
    match field(meta, key) {
        Some(Json::Array(ids)) => exists|i: int| 0 <= i < ids@.len() && str_of(Some(#[trigger] ids@[i])) == Some(id),
        _ => false,
    }
}

/// The control file named by the metadata, when not blank.
pub open spec fn control_path_spec(meta: Json) -> Option<Seq<char>> {
    match str_of(field(meta, "controlPath"@)) {
        Some(p) => if trim(p).len() > 0 {
            Some(p)
        } else {
            None
        },
        None => None,
    }
}

/// The control line: the compact JSON text of `{"op": op, key: id}`.
pub open spec fn control_line(op: Seq<char>, key: Seq<char>, id: Seq<char>) -> Seq<char> {
    crate::json::serde_compact_text(
        crate::json::JsonModel::Object(
            seq![("op"@, crate::json::JsonModel::Str(op)), (key, crate::json::JsonModel::Str(id))],
        ),
    )
}

/// The error when the metadata names no control file.
pub open spec fn missing_control_path() -> Seq<char> {
    "Pi Bash control metadata missing controlPath"@
}

/// A foreground-to-background request: refused unless the tool call is one
/// the extension lists as active; else the control file and the line to
/// append to it.
pub open spec fn background_control_spec(meta: Json, tool_call_id: Seq<char>) -> Result<(Seq<char>, Seq<char>), Seq<char>> {
    if !lists_id(meta, "activeToolCallIds"@, tool_call_id) {
        Err("Pi Bash tool is not promotable: "@ + tool_call_id)
    } else {
        match control_path_spec(meta) {
            None => Err(missing_control_path()),
            Some(p) => Ok((p, control_line("background"@, "toolCallId"@, tool_call_id))),
        }
    }
}

/// A kill request: `None` (not found) unless the task is one the extension
/// lists as running; else the control file and the line to append to it.
pub open spec fn kill_control_spec(meta: Json, task_id: Seq<char>) -> Result<Option<(Seq<char>, Seq<char>)>, Seq<char>> {
    if !lists_id(meta, "runningTaskIds"@, task_id) {
        Ok(None)
    } else {
        match control_path_spec(meta) {
            None => Err(missing_control_path()),
            Some(p) => Ok(Some((p, control_line("kill"@, "taskId"@, task_id)))),
        }
    }
}

fn lists_id_exec(meta: &Json, key: &str, id: &str) -> (r: bool)
    ensures
        r == lists_id(*meta, key@, id@),
{
    let got = meta.get(key);
    let ghost g = opt_deref(got);
    match got {
        Some(Json::Array(ids)) => {
            assert(g == Some(Json::Array(*ids)));
            assert(lists_id(*meta, key@, id@) == exists|j: int|
                0 <= j < ids@.len() && str_of(Some(#[trigger] ids@[j])) == Some(id@));
            let mut i: usize = 0;
            while i < ids.len()
                invariant
                    i <= ids.len(),
                    lists_id(*meta, key@, id@) == exists|j: int|
                        0 <= j < ids@.len() && str_of(Some(#[trigger] ids@[j])) == Some(id@),
                    forall|j: int| 0 <= j < i ==> str_of(Some(#[trigger] ids@[j])) != Some(id@),
                decreases ids.len() - i,
            {
                match ids[i].as_str() {
                    Some(s) => if str_eq(s, id) {
                        assert(str_of(Some(ids@[i as int])) == Some(id@));
                        return true;
                    },
                    None => {},
                }
                i = i + 1;
            }
            false
        },
        _ => false,
    }
}

fn control_path_exec(meta: &Json) -> (r: Option<String>)
    ensures
        crate::model::opt_string_view(r) == control_path_spec(*meta),
{
    match get_str(meta, "controlPath") {
        Some(p) => if crate::text::is_blank(p) {
            None
        } else {
            Some(to_owned(p))
        },
        None => None,
    }
}

fn control_line_exec(op: &str, key: &str, id: &str) -> (r: String)
    ensures
        r@ == control_line(op@, key@, id@),
{
    let mut members: Vec<(String, Json)> = Vec::new();
    members.push((to_owned("op"), Json::Str(to_owned(op))));
    members.push((to_owned(key), Json::Str(to_owned(id))));
    let ghost ms = members@;
    let v = Json::Object(members);
    proof {
        crate::json::lemma_object_model(v);
        assert(json_model(ms[0].1) == crate::json::JsonModel::Str(op@));
        assert(json_model(ms[1].1) == crate::json::JsonModel::Str(id@));
        assert(member_models(ms) =~= seq![("op"@, crate::json::JsonModel::Str(op@)), (key@, crate::json::JsonModel::Str(id@))]);
        assert(v@ == crate::json::JsonModel::Object(
            seq![("op"@, crate::json::JsonModel::Str(op@)), (key@, crate::json::JsonModel::Str(id@))],
        ));
    }
    crate::json::to_compact_string(&v)
}

/// A foreground-to-background request for `tool_call_id`, given the Bash
/// extension's control metadata (see [`background_control_spec`]).
pub fn background_control(meta: &Json, tool_call_id: &str) -> (r: Result<(String, String), String>)
    ensures
        match r {
            Ok((p, l)) => background_control_spec(*meta, tool_call_id@) == Ok::<(Seq<char>, Seq<char>), Seq<char>>((p@, l@)),
            Err(e) => background_control_spec(*meta, tool_call_id@) == Err::<(Seq<char>, Seq<char>), Seq<char>>(e@),
        },
{
    if !lists_id_exec(meta, "activeToolCallIds", tool_call_id) {
        let mut e = to_owned("Pi Bash tool is not promotable: ");
        crate::text::push_str(&mut e, tool_call_id);
        return Err(e);
    }
    match control_path_exec(meta) {
        None => Err(to_owned("Pi Bash control metadata missing controlPath")),
        Some(p) => Ok((p, control_line_exec("background", "toolCallId", tool_call_id))),
    }
}

/// A kill request for `task_id`, given the Bash extension's control
/// metadata (see [`kill_control_spec`]).
pub fn kill_control(meta: &Json, task_id: &str) -> (r: Result<Option<(String, String)>, String>)
    ensures
        match r {
            Ok(Some((p, l))) => kill_control_spec(*meta, task_id@) == Ok::<Option<(Seq<char>, Seq<char>)>, Seq<char>>(
                Some((p@, l@)),
            ),
            Ok(None) => kill_control_spec(*meta, task_id@) == Ok::<Option<(Seq<char>, Seq<char>)>, Seq<char>>(None),
            Err(e) => kill_control_spec(*meta, task_id@) == Err::<Option<(Seq<char>, Seq<char>)>, Seq<char>>(e@),
        },
{
    if !lists_id_exec(meta, "runningTaskIds", task_id) {
        return Ok(None);
    }
    match control_path_exec(meta) {
        None => Err(to_owned("Pi Bash control metadata missing controlPath")),
        Some(p) => Ok(Some((p, control_line_exec("kill", "taskId", task_id)))),
    }
}

} // verus!
