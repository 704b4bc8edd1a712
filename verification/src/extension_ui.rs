//! Pi extension dialogs and the plan-approval gate as pager requests: the
//! question the pager is asked, the reply Pi gets back, and what the user's
//! answer to a plan approval means.  Sending and waiting are the caller's.
use crate::adapter::{
    extension_answer, extension_answer_spec, extension_tool_call_id, extension_tool_call_id_spec, member,
};
use crate::json::{
    field, first_str, get_str, json_model, lemma_items_model_all, member_models, object, opt_str_view, or_empty,
    str1, str2, str_of, str_or_empty, text_value, Json, JsonModel,
};
use crate::model::{member_or_self, opt_string_view};
use crate::queue_bridge::string_items;
use crate::text::{eq_ignore_ascii_case, eq_ignore_case, is_blank, lower, push_str, str_eq, to_ascii_lowercase, to_owned, trim};
use vstd::prelude::*;

verus! {

/// The dialog kind of an extension UI request: `method`, lower-cased.
pub open spec fn ui_method_spec(event: Json) -> Seq<char> {
    lower(or_empty(first_str(event, seq!["method"@])))
}

/// One answer option of a question.
pub open spec fn option_model(label: Seq<char>) -> JsonModel {
    JsonModel::Object(
        seq![
            ("label"@, JsonModel::Str(label)),
            ("description"@, JsonModel::Str(""@)),
            ("preview"@, JsonModel::Null),
            ("id"@, JsonModel::Null),
        ],
    )
}

/// The options offered: the string options of a `select`, `Yes` and `No`
/// for a `confirm`, none otherwise.
pub open spec fn question_options(event: Json, method: Seq<char>) -> Seq<JsonModel> {
    if method == "select"@ {
        match field(event, "options"@) {
            Some(Json::Array(items)) => string_items(items@).map_values(|l: Seq<char>| option_model(l)),
            _ => Seq::empty(),
        }
    } else if method == "confirm"@ {
        seq![option_model("Yes"@), option_model("No"@)]
    } else {
        Seq::empty()
    }
}

/// The question text: the `message` of a `confirm` (else its title), the
/// title (`title`, `message`, or "Pi extension") otherwise, and for an
/// `input` the placeholder after a blank line when there is one.
pub open spec fn question_text(event: Json, method: Seq<char>) -> Seq<char> {
    let title = match first_str(event, seq!["title"@, "message"@]) {
        Some(t) => t,
        None => "Pi extension"@,
    };
    let q = if method == "confirm"@ {
        match first_str(event, seq!["message"@]) {
            Some(m) => m,
            None => title,
        }
    } else {
        title
    };
    if method == "input"@ {
        match first_str(event, seq!["placeholder"@]) {
            Some(p) => if p.len() > 0 {
                q + "\n\n"@ + p
            } else {
                q
            },
            None => q,
        }
    } else {
        q
    }
}

/// The parameters of `x.ai/ask_user_question` for an extension UI request:
/// an error when the request has no `id`.
pub open spec fn ask_question_spec(session_id: Seq<char>, event: Json) -> Result<JsonModel, Seq<char>> {
    match field(event, "id"@) {
        None => Err("Pi extension UI request has no id"@),
        Some(id) => {
            let m = ui_method_spec(event);
            Ok(
                JsonModel::Object(
                    seq![
                        ("sessionId"@, JsonModel::Str(session_id)),
                        ("toolCallId"@, JsonModel::Str(extension_tool_call_id_spec(id))),
                        (
                            "questions"@,
                            JsonModel::Array(
                                seq![
                                    JsonModel::Object(
                                        seq![
                                            ("question"@, JsonModel::Str(question_text(event, m))),
                                            ("options"@, JsonModel::Array(question_options(event, m))),
                                            ("multiSelect"@, JsonModel::Bool(false)),
                                            ("id"@, JsonModel::Str("pi-question"@)),
                                        ],
                                    ),
                                ],
                            ),
                        ),
                        ("mode"@, JsonModel::Str("default"@)),
                        (
                            "initialText"@,
                            JsonModel::Str(
                                if m == "editor"@ {
                                    or_empty(first_str(event, seq!["prefill"@]))
                                } else {
                                    ""@
                                },
                            ),
                        ),
                        ("noFreeform"@, JsonModel::Bool(m == "select"@ || m == "confirm"@)),
                    ],
                ),
            )
        },
    }
}

/// Pi's reply to a dialog the user dismissed (or that timed out).
pub open spec fn cancelled_reply(id: Json) -> JsonModel {
    JsonModel::Object(
        seq![
            ("type"@, JsonModel::Str("extension_ui_response"@)),
            ("id"@, json_model(id)),
            ("cancelled"@, JsonModel::Bool(true)),
        ],
    )
}

/// Pi's reply to an answered dialog (`response` is the pager's reply, or
/// its `result`): cancelled; for a `confirm`, whether the answer is `yes`
/// (any case); otherwise the answer text (empty when there is none).
pub open spec fn ui_reply_spec(id: Json, method: Seq<char>, response: Json) -> JsonModel {
    let result = member_or_self(response, "result"@);
    if str_of(field(result, "outcome"@)) == Some("cancelled"@) {
        cancelled_reply(id)
    } else {
        let answer = or_empty(extension_answer_spec(method, result));
        JsonModel::Object(
            seq![
                ("type"@, JsonModel::Str("extension_ui_response"@)),
                ("id"@, json_model(id)),
                if method == "confirm"@ {
                    ("confirmed"@, JsonModel::Bool(eq_ignore_case(answer, "yes"@)))
                } else {
                    ("value"@, JsonModel::Str(answer))
                },
            ],
        )
    }
}

/// The dialog kind of an extension UI request.
pub fn ui_method(event: &Json) -> (r: String)
    ensures
        r@ == ui_method_spec(*event),
{
    to_ascii_lowercase(str_or_empty(str1(event, "method")).as_str())
}

fn option_value(label: &str) -> (r: Json)
    ensures
        r@ == option_model(label@),
{
    let mut m: Vec<(String, Json)> = Vec::new();
    m.push(member("label", text_value(label)));
    m.push(member("description", text_value("")));
    m.push(member("preview", Json::Null));
    m.push(member("id", Json::Null));
    let v = object(m);
    assert(member_models(m@) =~= seq![
        ("label"@, JsonModel::Str(label@)),
        ("description"@, JsonModel::Str(""@)),
        ("preview"@, JsonModel::Null),
        ("id"@, JsonModel::Null),
    ]);
    v
}

fn options_value(event: &Json, method: &str) -> (r: Json)
    ensures
        r@ == JsonModel::Array(question_options(*event, method@)),
{
    let mut out: Vec<Json> = Vec::new();
    let ghost expected = question_options(*event, method@);
    if str_eq(method, "select") {
        let got = event.get("options");
        let ghost g = crate::json::opt_deref(got);
        match got {
            Some(Json::Array(items)) => {
                assert(g == Some(Json::Array(*items)));
                let mut i: usize = 0;
                while i < items.len()
                    invariant
                        i <= items.len(),
                        out@.len() == string_items(items@.take(i as int)).len(),
                        forall|j: int|
                            0 <= j < out@.len() ==> (#[trigger] out@[j])@ == option_model(
                                string_items(items@.take(i as int))[j],
                            ),
                    decreases items.len() - i,
                {
                    assert(items@.take(i + 1).drop_last() =~= items@.take(i as int));
                    match &items[i] {
                        Json::Str(s) => {
                            let ghost before = out@;
                            out.push(option_value(s.as_str()));
                            assert(string_items(items@.take(i + 1)) == string_items(items@.take(i as int)).push(s@));
                            assert forall|j: int|
                                0 <= j < out@.len() implies (#[trigger] out@[j])@ == option_model(
                                    string_items(items@.take(i + 1))[j],
                                ) by {
                                if j < before.len() {
                                    assert(out@[j] == before[j]);
                                }
                            }
                        },
                        _ => {
                            assert(string_items(items@.take(i + 1)) == string_items(items@.take(i as int)));
                        },
                    }
                    i = i + 1;
                }
                assert(items@.take(items.len() as int) =~= items@);
                proof {
                    lemma_items_model_all(out@, expected);
                }
            },
            _ => {
                proof {
                    lemma_items_model_all(out@, expected);
                }
            },
        }
    } else if str_eq(method, "confirm") {
        out.push(option_value("Yes"));
        out.push(option_value("No"));
        proof {
            lemma_items_model_all(out@, expected);
        }
    } else {
        proof {
            lemma_items_model_all(out@, expected);
        }
    }
    Json::Array(out)
}

fn question_text_exec(event: &Json, method: &str) -> (r: String)
    ensures
        r@ == question_text(*event, method@),
{
    let title = match str2(event, "title", "message") {
        Some(t) => t,
        None => "Pi extension",
    };
    let mut q = if str_eq(method, "confirm") {
        match str1(event, "message") {
            Some(m) => to_owned(m),
            None => to_owned(title),
        }
    } else {
        to_owned(title)
    };
    if str_eq(method, "input") {
        match str1(event, "placeholder") {
            Some(p) => if p.unicode_len() > 0 {
                push_str(&mut q, "\n\n");
                push_str(&mut q, p);
            },
            None => {},
        }
    }
    q
}

/// The parameters of the pager's question for an extension UI request
/// (see [`ask_question_spec`]).
pub fn ask_question_params(session_id: &str, event: &Json) -> (r: Result<Json, String>)
    ensures
        match r {
            Ok(v) => ask_question_spec(session_id@, *event) == Ok::<JsonModel, Seq<char>>(v@),
            Err(e) => ask_question_spec(session_id@, *event) == Err::<JsonModel, Seq<char>>(e@),
        },
{
    let id = match event.get("id") {
        Some(i) => i,
        None => return Err(to_owned("Pi extension UI request has no id")),
    };
    let method = ui_method(event);
    let m = method.as_str();
    let mut q: Vec<(String, Json)> = Vec::new();
    q.push(member("question", text_value(question_text_exec(event, m).as_str())));
    q.push(member("options", options_value(event, m)));
    q.push(member("multiSelect", Json::Bool(false)));
    q.push(member("id", text_value("pi-question")));
    let ghost qm = member_models(q@);
    let question = object(q);
    let mut qs: Vec<Json> = Vec::new();
    qs.push(question);
    proof {
        lemma_items_model_all(qs@, seq![JsonModel::Object(qm)]);
    }
    let initial = if str_eq(m, "editor") {
        str_or_empty(str1(event, "prefill"))
    } else {
        to_owned("")
    };
    let no_freeform = str_eq(m, "select") || str_eq(m, "confirm");
    let mut p: Vec<(String, Json)> = Vec::new();
    p.push(member("sessionId", text_value(session_id)));
    p.push(member("toolCallId", text_value(extension_tool_call_id(id).as_str())));
    p.push(member("questions", Json::Array(qs)));
    p.push(member("mode", text_value("default")));
    p.push(member("initialText", text_value(initial.as_str())));
    p.push(member("noFreeform", Json::Bool(no_freeform)));
    assert(qm =~= seq![
        ("question"@, JsonModel::Str(question_text(*event, m@))),
        ("options"@, JsonModel::Array(question_options(*event, m@))),
        ("multiSelect"@, JsonModel::Bool(false)),
        ("id"@, JsonModel::Str("pi-question"@)),
    ]);
    let v = object(p);
    assert(member_models(p@) =~= match ask_question_spec(session_id@, *event) {
        Ok(JsonModel::Object(ms)) => ms,
        _ => Seq::empty(),
    });
    Ok(v)
}

/// Pi's reply to a dialog that was dismissed or timed out.
pub fn extension_ui_cancelled(id: &Json) -> (r: Json)
    ensures
        r@ == cancelled_reply(*id),
{
    let mut m: Vec<(String, Json)> = Vec::new();
    m.push(member("type", text_value("extension_ui_response")));
    m.push(member("id", id.deep_clone()));
    m.push(member("cancelled", Json::Bool(true)));
    let v = object(m);
    assert(member_models(m@) =~= seq![
        ("type"@, JsonModel::Str("extension_ui_response"@)),
        ("id"@, json_model(*id)),
        ("cancelled"@, JsonModel::Bool(true)),
    ]);
    v
}

/// Pi's reply to an answered dialog (see [`ui_reply_spec`]); `method` is the
/// dialog kind (see [`ui_method`]).
pub fn extension_ui_reply(id: &Json, method: &str, response: &Json) -> (r: Json)
    ensures
        r@ == ui_reply_spec(*id, method@, *response),
{
    let result = match response.get("result") {
        Some(x) => x,
        None => response,
    };
    let cancelled = match get_str(result, "outcome") {
        Some(o) => str_eq(o, "cancelled"),
        None => false,
    };
    if cancelled {
        return extension_ui_cancelled(id);
    }
    let answer = match extension_answer(method, result) {
        Some(a) => a,
        None => String::new(),
    };
    let last = if str_eq(method, "confirm") {
        member("confirmed", Json::Bool(eq_ignore_ascii_case(answer.as_str(), "yes")))
    } else {
        member("value", text_value(answer.as_str()))
    };
    let mut m: Vec<(String, Json)> = Vec::new();
    m.push(member("type", text_value("extension_ui_response")));
    m.push(member("id", id.deep_clone()));
    m.push(last);
    let v = object(m);
    assert(member_models(m@) =~= match ui_reply_spec(*id, method@, *response) {
        JsonModel::Object(ms) => ms,
        _ => Seq::empty(),
    });
    v
}

// ─── Plan approval ───────────────────────────────────────────────────────────

/// The parameters of `x.ai/exit_plan_mode`: the plan text when it is not
/// blank, else `null`.
pub open spec fn plan_approval_spec(session_id: Seq<char>, tool_call_id: Seq<char>, plan: Option<Seq<char>>) -> JsonModel {
    JsonModel::Object(
        seq![
            ("sessionId"@, JsonModel::Str(session_id)),
            ("toolCallId"@, JsonModel::Str(tool_call_id)),
            (
                "planContent"@,
                match plan {
                    Some(p) => if trim(p).len() > 0 {
                        JsonModel::Str(p)
                    } else {
                        JsonModel::Null
                    },
                    None => JsonModel::Null,
                },
            ),
        ],
    )
}

/// The parameters of the plan-approval request; `plan` is the plan file's
/// text when it could be read.
pub fn plan_approval_params(session_id: &str, tool_call_id: &str, plan: Option<&str>) -> (r: Json)
    ensures
        r@ == plan_approval_spec(session_id@, tool_call_id@, opt_str_view(plan)),
{
    let content = match plan {
        Some(p) => if is_blank(p) {
            Json::Null
        } else {
            text_value(p)
        },
        None => Json::Null,
    };
    let mut m: Vec<(String, Json)> = Vec::new();
    m.push(member("sessionId", text_value(session_id)));
    m.push(member("toolCallId", text_value(tool_call_id)));
    m.push(member("planContent", content));
    let v = object(m);
    assert(member_models(m@) =~= match plan_approval_spec(session_id@, tool_call_id@, opt_str_view(plan)) {
        JsonModel::Object(ms) => ms,
        _ => Seq::empty(),
    });
    v
}

/// What the user's answer to a plan approval means.
#[derive(Debug, Clone, PartialEq, Eq)]
pub enum PlanApproval {
    /// Leave plan mode.
    Approved,
    /// Stay in plan mode; ask Pi to revise the plan with this follow-up
    /// message, when the user wrote feedback.
    Rejected { follow_up: Option<String> },
}

/// The meaning of a plan-approval reply: approved when its outcome (in
/// `result`, or the reply itself) is `approved` or `abandoned`; otherwise
/// rejected, with the user's non-blank feedback turned into a follow-up.
pub open spec fn plan_approval_outcome_spec(response: Json) -> Option<Seq<char>> {
    let result = member_or_self(response, "result"@);
    let outcome = match str_of(field(result, "outcome"@)) {
        Some(o) => o,
        None => "cancelled"@,
    };
    if outcome == "approved"@ || outcome == "abandoned"@ {
        None
    } else {
        Some(
            match str_of(field(result, "feedback"@)) {
                Some(f) => if trim(f).len() > 0 {
                    "The user requested plan changes:\n"@ + f
                } else {
                    Seq::empty()
                },
                None => Seq::empty(),
            },
        )
    }
}

/// The meaning of a plan-approval reply (see
/// [`plan_approval_outcome_spec`]: `None` there is approval, `Some(text)`
/// a rejection whose follow-up is `text` unless it is empty).
pub fn plan_approval_outcome(response: &Json) -> (r: PlanApproval)
    ensures
        match r {
            PlanApproval::Approved => plan_approval_outcome_spec(*response) is None,
            PlanApproval::Rejected { follow_up } => match plan_approval_outcome_spec(*response) {
                Some(t) => opt_string_view(follow_up) == if t.len() > 0 {
                    Some(t)
                } else {
                    None::<Seq<char>>
                },
                None => false,
            },
        },
{
    let result = match response.get("result") {
        Some(x) => x,
        None => response,
    };
    let outcome = match get_str(result, "outcome") {
        Some(o) => o,
        None => "cancelled",
    };
    if str_eq(outcome, "approved") || str_eq(outcome, "abandoned") {
        return PlanApproval::Approved;
    }
    let follow_up = match get_str(result, "feedback") {
        Some(f) => if is_blank(f) {
            None
        } else {
            let mut t = to_owned("The user requested plan changes:\n");
            push_str(&mut t, f);
            proof {
                reveal_strlit("The user requested plan changes:\n");
            }
            Some(t)
        },
        None => None,
    };
    PlanApproval::Rejected { follow_up }
}

} // verus!
