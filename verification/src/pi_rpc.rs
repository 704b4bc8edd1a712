//! The decisions of the Pi RPC channel: how Pi is started, how a request is
//! stamped with its id, which stdout lines answer a pending request, what a
//! response yields, and when a line needs the deep JSON parser.  The process,
//! the pipes and the pending-request table live with the caller.
use crate::json::{
    bool_of, field, first_str, json_model, lemma_object_model, member_models, str_of, Json, JsonModel,
};
use crate::text::{contains_text, decimal, push_decimal, str_eq, to_owned};
use vstd::prelude::*;

verus! {

/// How to start Pi.
#[derive(Debug, Clone)]
pub struct SpawnConfig {
    pub program: String,
    /// Arguments placed before `--mode rpc`.
    pub prefix_args: Vec<String>,
    pub cwd: String,
    /// Arguments placed after `--mode rpc`.
    pub pi_args: Vec<String>,
    /// Variables added to the child's environment.
    pub env: Vec<(String, String)>,
}

impl SpawnConfig {
    /// The arguments Pi is started with: the prefix, `--mode rpc`, then
    /// Pi's own arguments.
    pub fn command_args(&self) -> (r: Vec<String>)
        ensures
            r.deep_view() == self.prefix_args.deep_view() + seq!["--mode"@, "rpc"@] + self.pi_args.deep_view(),
    {
        let mut out: Vec<String> = Vec::new();
        let mut i: usize = 0;
        while i < self.prefix_args.len()
            invariant
                i <= self.prefix_args.len(),
                out.deep_view() == self.prefix_args.deep_view().take(i as int),
            decreases self.prefix_args.len() - i,
        {
            let ghost before = out.deep_view();
            out.push(self.prefix_args[i].clone());
            assert(out.deep_view() =~= before.push(self.prefix_args@[i as int]@));
            assert(self.prefix_args.deep_view().take(i + 1) =~= self.prefix_args.deep_view().take(i as int).push(
                self.prefix_args@[i as int]@,
            ));
            i = i + 1;
        }
        assert(self.prefix_args.deep_view().take(i as int) =~= self.prefix_args.deep_view());
        let ghost head = out.deep_view();
        out.push(to_owned("--mode"));
        out.push(to_owned("rpc"));
        assert(out.deep_view() =~= head + seq!["--mode"@, "rpc"@]);
        let ghost mid = out.deep_view();
        let mut j: usize = 0;
        while j < self.pi_args.len()
            invariant
                j <= self.pi_args.len(),
                out.deep_view() == mid + self.pi_args.deep_view().take(j as int),
            decreases self.pi_args.len() - j,
        {
            let ghost before = out.deep_view();
            out.push(self.pi_args[j].clone());
            assert(out.deep_view() =~= before.push(self.pi_args@[j as int]@));
            assert(self.pi_args.deep_view().take(j + 1) =~= self.pi_args.deep_view().take(j as int).push(
                self.pi_args@[j as int]@,
            ));
            j = j + 1;
        }
        assert(self.pi_args.deep_view().take(j as int) =~= self.pi_args.deep_view());
        out
    }
}

/// The id of the `n`-th request: `pi-grok-<n>`.
pub open spec fn request_id_spec(n: u64) -> Seq<char> {
    "pi-grok-"@ + decimal(n as nat)
}

/// The id of the `n`-th request.
pub fn request_id(n: u64) -> (r: String)
    ensures
        r@ == request_id_spec(n),
{
    let mut s = to_owned("pi-grok-");
    push_decimal(&mut s, n);
    s
}

/// The index of the first member named `key`, from index `i` on.
pub open spec fn first_key_index(members: Seq<(Seq<char>, JsonModel)>, key: Seq<char>, i: int) -> Option<int>
    decreases members.len() - i,
{
    if i < 0 || i >= members.len() {
        None
    } else if members[i].0 == key {
        Some(i)
    } else {
        first_key_index(members, key, i + 1)
    }
}

/// Object members with `key` set to `value`: replaced at its first
/// occurrence, else added at the end.
pub open spec fn set_member(members: Seq<(Seq<char>, JsonModel)>, key: Seq<char>, value: JsonModel) -> Seq<(Seq<char>, JsonModel)> {
    match first_key_index(members, key, 0) {
        Some(p) => members.update(p, (key, value)),
        None => members.push((key, value)),
    }
}

/// The request Pi is sent for `command` as the `n`-th request: an error
/// when it has no `type`; otherwise the command with `id` set.
pub open spec fn prepare_request_spec(command: Json, n: u64) -> Result<JsonModel, Seq<char>> {
    match command {
        Json::Object(members) => if str_of(field(command, "type"@)) is None {
            Err("Pi RPC command is missing its type"@)
        } else {
            Ok(JsonModel::Object(set_member(member_models(members@), "id"@, JsonModel::Str(request_id_spec(n)))))
        },
        _ => Err("Pi RPC command is missing its type"@),
    }
}

/// Stamp `command` with the id of the `n`-th request.
pub fn prepare_request(command: &Json, n: u64) -> (r: Result<Json, String>)
    ensures
        match r {
            Ok(v) => prepare_request_spec(*command, n) == Ok::<JsonModel, Seq<char>>(v@),
            Err(e) => prepare_request_spec(*command, n) == Err::<JsonModel, Seq<char>>(e@),
        },
{
    let has_type = match command.get("type") {
        Some(t) => t.as_str().is_some(),
        None => false,
    };
    if !has_type {
        return Err(to_owned("Pi RPC command is missing its type"));
    }
    let copy = command.deep_clone();
    proof {
        lemma_object_model(*command);
        lemma_object_model(copy);
    }
    let mut members = match copy {
        Json::Object(m) => m,
        _ => return Err(to_owned("Pi RPC command is missing its type")),
    };
    let ghost models = member_models(members@);
    let id = request_id(n);
    let mut i: usize = 0;
    while i < members.len() && !str_eq(members[i].0.as_str(), "id")
        invariant
            i <= members.len(),
            models == member_models(members@),
            first_key_index(models, "id"@, 0) == first_key_index(models, "id"@, i as int),
        decreases members.len() - i,
    {
        assert(models[i as int].0 == members@[i as int].0@);
        i = i + 1;
    }
    if i < members.len() {
        assert(models[i as int].0 == members@[i as int].0@);
        members.set(i, (to_owned("id"), Json::Str(id)));
        assert(member_models(members@) =~= set_member(models, "id"@, JsonModel::Str(request_id_spec(n))));
    } else {
        members.push((to_owned("id"), Json::Str(id)));
        assert(member_models(members@) =~= set_member(models, "id"@, JsonModel::Str(request_id_spec(n))));
    }
    Ok(crate::json::object(members))
}

/// The id of a request that a stdout value answers: its `id`, when its
/// `type` is `response`.
pub open spec fn response_id_spec(value: Json) -> Option<Seq<char>> {
    if str_of(field(value, "type"@)) == Some("response"@) {
        str_of(field(value, "id"@))
    } else {
        None
    }
}

/// The id of the request a stdout value answers, if it is a response.
pub fn response_id(value: &Json) -> (r: Option<String>)
    ensures
        crate::model::opt_string_view(r) == response_id_spec(*value),
{
    let is_response = match value.get("type") {
        Some(t) => match t.as_str() {
            Some(s) => str_eq(s, "response"),
            None => false,
        },
        None => false,
    };
    if !is_response {
        return None;
    }
    match value.get("id") {
        Some(i) => match i.as_str() {
            Some(s) => Some(to_owned(s)),
            None => None,
        },
        None => None,
    }
}

/// What a response yields: its `error` (or a generic message) when
/// `success` is `false`, else its `data` (or `null`).
pub open spec fn response_result_spec(response: Json) -> Result<JsonModel, Seq<char>> {
    if bool_of(field(response, "success"@)) == Some(false) {
        Err(
            match first_str(response, seq!["error"@]) {
                Some(e) => e,
                None => "Pi RPC command failed"@,
            },
        )
    } else {
        Ok(
            match field(response, "data"@) {
                Some(d) => json_model(d),
                None => JsonModel::Null,
            },
        )
    }
}

/// What a response yields (see [`response_result_spec`]).
pub fn response_result(response: &Json) -> (r: Result<Json, String>)
    ensures
        match r {
            Ok(v) => response_result_spec(*response) == Ok::<JsonModel, Seq<char>>(v@),
            Err(e) => response_result_spec(*response) == Err::<JsonModel, Seq<char>>(e@),
        },
{
    if crate::json::get_bool(response, "success") == Some(false) {
        return Err(
            match crate::json::str1(response, "error") {
                Some(e) => to_owned(e),
                None => to_owned("Pi RPC command failed"),
            },
        );
    }
    match response.get("data") {
        Some(d) => Ok(d.deep_clone()),
        None => Ok(Json::Null),
    }
}

/// Whether a stdout line that the default parser refused goes to the deep
/// parser: lines over 64 KiB, and lines that hit the recursion limit.
pub fn needs_deep_parse(line_bytes: usize, error: &str) -> (r: bool)
    ensures
        r == (line_bytes > 65536 || crate::text::has_infix(error@, "recursion limit exceeded"@)),
{
    line_bytes > 65536 || contains_text(error, "recursion limit exceeded")
}

/// The event that reports a stdout line that is not JSON: an
/// `adapter_diagnostic` with the line's size in bytes and the parser's error.
pub open spec fn invalid_json_event_spec(line_bytes: u64, error: Seq<char>) -> JsonModel {
    JsonModel::Object(
        seq![
            ("type"@, JsonModel::Str("adapter_diagnostic"@)),
            ("message"@, JsonModel::Str("Invalid Pi RPC JSON ("@ + decimal(line_bytes as nat) + " bytes): "@ + error)),
        ],
    )
}

/// The diagnostic event for a stdout line that is not JSON (see
/// [`invalid_json_event_spec`]).
pub fn invalid_json_event(line_bytes: u64, error: &str) -> (r: Json)
    ensures
        r@ == invalid_json_event_spec(line_bytes, error@),
{
    let mut message = to_owned("Invalid Pi RPC JSON (");
    push_decimal(&mut message, line_bytes);
    crate::text::push_str(&mut message, " bytes): ");
    crate::text::push_str(&mut message, error);
    let mut m: Vec<(String, Json)> = Vec::new();
    m.push(crate::adapter::member("type", crate::json::text_value("adapter_diagnostic")));
    m.push(crate::adapter::member("message", Json::Str(message)));
    let ghost ms = m@;
    let r = crate::json::object(m);
    proof {
        assert(crate::json::member_models(ms) =~= invalid_json_event_spec(line_bytes, error@)->Object_0);
    }
    r
}

} // verus!
