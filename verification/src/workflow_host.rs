//! Workflow requests typed at the `/workflow` prompt and the outcomes of
//! workflow runs, as the Pi session shows them.
use crate::json::{field, member_models, object, str_of, text_value, Json, JsonModel};
use crate::text::{push_str, str_eq, to_owned, trim, trim_str};
use vstd::prelude::*;

verus! {

/// A workflow request: launch a workflow, or manage a run.
#[derive(Debug)]
pub enum WorkflowRequest {
    Launch { name: String, objective: String, args: Json },
    Manage { op: String, target: String },
}

/// A workflow request as values.
pub enum RequestView {
    Launch(Seq<char>, Seq<char>, JsonModel),
    Manage(Seq<char>, Seq<char>),
}

pub open spec fn request_view(r: WorkflowRequest) -> RequestView {
    match r {
        WorkflowRequest::Launch { name, objective, args } => RequestView::Launch(name@, objective@, args@),
        WorkflowRequest::Manage { op, target } => RequestView::Manage(op@, target@),
    }
}

/// Whether a word names a run-management operation.
pub open spec fn is_manage_op(s: Seq<char>) -> bool {
    s == "pause"@ || s == "stop"@ || s == "resume"@ || s == "save"@
}

/// The arguments of a launch: `{}` for none, the JSON value the arguments
/// parse to, else `{"objective": <arguments>}`.
pub open spec fn launch_args(args: Seq<char>, parsed: Option<JsonModel>) -> JsonModel {
    if args.len() == 0 {
        JsonModel::Object(Seq::empty())
    } else {
        match parsed {
            Some(v) => v,
            None => JsonModel::Object(seq![("objective"@, JsonModel::Str(args))]),
        }
    }
}

/// The `objective` string of a JSON model, when it is an object that has one.
pub open spec fn objective_of(v: JsonModel) -> Option<Seq<char>> {
    match v {
        JsonModel::Object(ms) => match crate::background_bash_bridge::model_member(ms, "objective"@) {
            Some(JsonModel::Str(s)) => Some(s),
            _ => None,
        },
        _ => None,
    }
}

/// The request that `/workflow <name> <args>` makes, both trimmed (`parsed`:
/// the arguments read as JSON, where they are JSON): an error without a
/// name; a management operation when the name (or the arguments) is one,
/// applied to the arguments (or the name); else a launch whose objective is
/// the arguments' `objective`, else the arguments, else the name.
pub open spec fn workflow_request_spec(name: Seq<char>, args: Seq<char>, parsed: Option<JsonModel>) -> Result<RequestView, Seq<char>> {
    let n = trim(name);
    let a = trim(args);
    if n.len() == 0 {
        Err("workflow name is required"@)
    } else if is_manage_op(n) {
        Ok(RequestView::Manage(n, a))
    } else if is_manage_op(a) {
        Ok(RequestView::Manage(a, n))
    } else {
        let json_args = launch_args(a, parsed);
        let objective = match objective_of(json_args) {
            Some(o) => o,
            None => a,
        };
        Ok(RequestView::Launch(n, if objective.len() == 0 { n } else { objective }, json_args))
    }
}

fn is_manage_op_exec(s: &str) -> (r: bool)
    ensures
        r == is_manage_op(s@),
{
    str_eq(s, "pause") || str_eq(s, "stop") || str_eq(s, "resume") || str_eq(s, "save")
}

/// Read a `/workflow` request (see [`workflow_request_spec`]); `parsed` is
/// what the trimmed arguments parse to as JSON, when they do.
pub fn parse_workflow_request(name: &str, args: &str, parsed: Option<Json>) -> (r: Result<WorkflowRequest, String>)
    ensures
        match r {
            Ok(req) => workflow_request_spec(name@, args@, crate::json::opt_model(parsed)) == Ok::<RequestView, Seq<char>>(
                request_view(req),
            ),
            Err(e) => workflow_request_spec(name@, args@, crate::json::opt_model(parsed)) == Err::<RequestView, Seq<char>>(e@),
        },
{
    let n = trim_str(name);
    let a = trim_str(args);
    if n.as_str().unicode_len() == 0 {
        return Err(String::from_str("workflow name is required"));
    }
    if is_manage_op_exec(n.as_str()) {
        return Ok(WorkflowRequest::Manage { op: n, target: a });
    }
    if is_manage_op_exec(a.as_str()) {
        return Ok(WorkflowRequest::Manage { op: a, target: n });
    }
    let json_args = if a.as_str().unicode_len() == 0 {
        let r = object(Vec::new());
        assert(member_models(Seq::<(String, Json)>::empty()) =~= Seq::<(Seq<char>, JsonModel)>::empty());
        r
    } else {
        match parsed {
            Some(v) => v,
            None => {
                let mut members: Vec<(String, Json)> = Vec::new();
                members.push((String::from_str("objective"), text_value(a.as_str())));
                let ghost m = members@;
                let r = object(members);
                assert(member_models(m) =~= seq![("objective"@, JsonModel::Str(a@))]);
                r
            },
        }
    };
    let objective = match crate::json::get_str(&json_args, "objective") {
        Some(o) => to_owned(o),
        None => a.clone(),
    };
    proof {
        crate::background_bash_bridge::lemma_field_model(json_args, "objective"@);
        assert(objective@ == match objective_of(json_args@) {
            Some(o) => o,
            None => a@,
        });
    }
    let objective = if objective.as_str().unicode_len() == 0 {
        n.clone()
    } else {
        objective
    };
    Ok(WorkflowRequest::Launch { name: n, objective, args: json_args })
}

/// How a workflow run ended.
#[derive(Debug)]
pub enum WorkflowOutcome {
    Completed { result: Json },
    /// `kind`: the name of the pause reason.
    Paused { kind: String, message: String },
    BudgetExceeded { message: String },
    Cancelled,
    Failed { error: String },
}

/// The text a workflow tool returns for a run's outcome.
pub open spec fn outcome_text(run_id: Seq<char>, o: WorkflowOutcome) -> Seq<char> {
    let run = "Workflow run `"@ + run_id + "`"@;
    match o {
        WorkflowOutcome::Completed { result } => run + " completed.\n\n"@ + match result {
            Json::Str(s) => s@,
            _ => crate::json::serde_pretty_text(result@),
        },
        WorkflowOutcome::Paused { kind, message } => run + " paused ("@ + kind@ + "): "@ + message@,
        WorkflowOutcome::BudgetExceeded { message } => run + " hit agent budget: "@ + message@,
        WorkflowOutcome::Cancelled => run + " was cancelled."@,
        WorkflowOutcome::Failed { error } => run + " failed: "@ + error@,
    }
}

/// The text a workflow tool returns for a run's outcome (see
/// [`outcome_text`]).
pub fn format_outcome_for_tool(run_id: &str, outcome: &WorkflowOutcome) -> (r: String)
    ensures
        r@ == outcome_text(run_id@, *outcome),
{
    let mut out = String::from_str("Workflow run `");
    push_str(&mut out, run_id);
    push_str(&mut out, "`");
    match outcome {
        WorkflowOutcome::Completed { result } => {
            push_str(&mut out, " completed.\n\n");
            match result {
                Json::Str(s) => push_str(&mut out, s.as_str()),
                _ => crate::json::push_pretty(&mut out, result),
            }
        },
        WorkflowOutcome::Paused { kind, message } => {
            push_str(&mut out, " paused (");
            push_str(&mut out, kind.as_str());
            push_str(&mut out, "): ");
            push_str(&mut out, message.as_str());
        },
        WorkflowOutcome::BudgetExceeded { message } => {
            push_str(&mut out, " hit agent budget: ");
            push_str(&mut out, message.as_str());
        },
        WorkflowOutcome::Cancelled => {
            push_str(&mut out, " was cancelled.");
        },
        WorkflowOutcome::Failed { error } => {
            push_str(&mut out, " failed: ");
            push_str(&mut out, error.as_str());
        },
    }
    assert(out@ =~= outcome_text(run_id@, *outcome));
    out
}

fn member(key: &str, value: Json) -> (r: (String, Json))
    ensures
        r.0@ == key@,
        r.1 == value,
{
    (to_owned(key), value)
}

/// The JSON form of a run's outcome: its status and details.
pub open spec fn outcome_model(o: WorkflowOutcome) -> JsonModel {
    match o {
        WorkflowOutcome::Completed { result } => JsonModel::Object(
            seq![("status"@, JsonModel::Str("completed"@)), ("result"@, result@)],
        ),
        WorkflowOutcome::Paused { kind, message } => JsonModel::Object(
            seq![
                ("status"@, JsonModel::Str("paused"@)),
                ("kind"@, JsonModel::Str(kind@)),
                ("message"@, JsonModel::Str(message@)),
            ],
        ),
        WorkflowOutcome::BudgetExceeded { message } => JsonModel::Object(
            seq![("status"@, JsonModel::Str("budget_exceeded"@)), ("message"@, JsonModel::Str(message@))],
        ),
        WorkflowOutcome::Cancelled => JsonModel::Object(seq![("status"@, JsonModel::Str("cancelled"@))]),
        WorkflowOutcome::Failed { error } => JsonModel::Object(
            seq![("status"@, JsonModel::Str("failed"@)), ("error"@, JsonModel::Str(error@))],
        ),
    }
}

/// The JSON form of a run's outcome (see [`outcome_model`]).
pub fn outcome_to_json(outcome: &WorkflowOutcome) -> (r: Json)
    ensures
        r@ == outcome_model(*outcome),
{
    let mut m: Vec<(String, Json)> = Vec::new();
    match outcome {
        WorkflowOutcome::Completed { result } => {
            m.push(member("status", text_value("completed")));
            m.push(member("result", result.deep_clone()));
        },
        WorkflowOutcome::Paused { kind, message } => {
            m.push(member("status", text_value("paused")));
            m.push(member("kind", text_value(kind.as_str())));
            m.push(member("message", text_value(message.as_str())));
        },
        WorkflowOutcome::BudgetExceeded { message } => {
            m.push(member("status", text_value("budget_exceeded")));
            m.push(member("message", text_value(message.as_str())));
        },
        WorkflowOutcome::Cancelled => {
            m.push(member("status", text_value("cancelled")));
        },
        WorkflowOutcome::Failed { error } => {
            m.push(member("status", text_value("failed")));
            m.push(member("error", text_value(error.as_str())));
        },
    }
    let ghost mv = m@;
    let r = object(m);
    assert(member_models(mv) =~= outcome_model(*outcome)->Object_0);
    r
}

} // verus!
