//! Goal state for the `/goal` command: the control record written by the goal
//! extension, the host that remembers the latest one and times the active
//! goal, and the parsing of `/goal` arguments.
use crate::text::{join, join_strings, parse_i64, parse_i64_spec, push_str, split_whitespace, split_ws, str_eq};
use crate::json::{member_models, object, text_value, Json, JsonModel, JsonNumber};
use std::time::Instant;
use vstd::prelude::*;

verus! {

/// `std::time::Instant`, carried through the host as an opaque value.
#[verifier::external_type_specification]
#[verifier::external_body]
pub struct ExInstant(Instant);

/// `Instant::now`: the current instant.  Nothing is stated of it: it depends
/// on the clock.
#[verifier::external_body]
fn instant_now() -> Instant {
    Instant::now()
}

/// `Instant::elapsed`: the time since `t`.  Nothing is stated of it: it
/// depends on the clock.
#[verifier::external_body]
fn instant_elapsed(t: &Instant) -> core::time::Duration {
    t.elapsed()
}

/// `Duration::as_millis`: whole milliseconds of `d`.  `Duration` is opaque
/// here, so nothing is stated of the number.
#[verifier::external_body]
fn duration_as_millis(d: &core::time::Duration) -> u128 {
    d.as_millis()
}

/// The goal control record (`goal.json`), as the goal extension writes it.
#[derive(Debug, Clone)]
pub struct GoalControl {
    pub goal_id: String,
    pub objective: String,
    /// `active` | `user_paused` | `blocked` | `complete` | `cleared`
    pub status: String,
    /// `idle` | `planning` | `executing`
    pub phase: String,
    pub token_budget: Option<i64>,
    pub token_baseline: i64,
    pub tokens_used: i64,
    pub created_at: String,
    pub pause_message: Option<String>,
    pub last_event: Option<String>,
    pub last_event_detail: Option<String>,
}

/// The phase a control record gets when its file names none.
pub fn default_phase() -> (r: String)
    ensures
        r@ == "executing"@,
{
    String::from_str("executing")
}

/// Whether a record with this status and goal id describes a live goal.
pub open spec fn present_spec(status: Seq<char>, goal_id: Seq<char>) -> bool {
    status != "cleared"@ && goal_id.len() > 0
}

impl GoalControl {
    /// The goal is being worked on (`status == "active"`).
    pub fn is_active(&self) -> (r: bool)
        ensures
            r == (self.status@ == "active"@),
    {
        str_eq(self.status.as_str(), "active")
    }

    /// A goal exists: it has an id and was not cleared.
    pub fn is_present(&self) -> (r: bool)
        ensures
            r == present_spec(self.status@, self.goal_id@),
    {
        !str_eq(self.status.as_str(), "cleared") && !self.goal_id.as_str().is_empty()
    }
}

/// Abstract state of a [`GoalHost`].
pub struct GoalHostView {
    pub control_path: Seq<char>,
    pub started: Option<Instant>,
    pub last_snapshot: Option<GoalControl>,
}

/// Holds the latest goal record and times the goal while one is present.
pub struct GoalHost {
    control_path: String,
    started: Option<Instant>,
    last_snapshot: Option<GoalControl>,
}

impl View for GoalHost {
    type V = GoalHostView;

    closed spec fn view(&self) -> GoalHostView {
        GoalHostView {
            control_path: self.control_path@,
            started: self.started,
            last_snapshot: self.last_snapshot,
        }
    }
}

/// The continuation reminder sent while a goal stays active.
pub open spec fn continuation_text(objective: Seq<char>) -> Seq<char> {
    "<system-reminder>\nGoal still ACTIVE. Objective: "@ + objective
        + "\nContinue working. Do not stop until the objective is fully achieved\nwith verifiable evidence. When done, call update_goal with completed=true\nand a short summary. If blocked after repeated failures, call update_goal\nwith blocked_reason. Do not claim completion without running checks.\n</system-reminder>"@
}

impl GoalHost {
    /// A host reading its control record from `control_path`, with no goal yet.
    pub fn new(control_path: String) -> (h: Self)
        ensures
            h@ == (GoalHostView { control_path: control_path@, started: None, last_snapshot: None }),
    {
        GoalHost { control_path, started: None, last_snapshot: None }
    }

    /// Where the control record lives.
    pub fn control_path(&self) -> (r: &str)
        ensures
            r@ == self@.control_path,
    {
        self.control_path.as_str()
    }

    /// Take `control` as the latest record.  The goal timer starts when a
    /// goal appears, keeps running while one stays present, and stops when
    /// none is.
    pub fn apply_control(&mut self, control: GoalControl)
        ensures
            final(self)@.control_path == old(self)@.control_path,
            final(self)@.last_snapshot == Some(control),
            final(self)@.started is Some <==> present_spec(control.status@, control.goal_id@),
            present_spec(control.status@, control.goal_id@) && old(self)@.started is Some
                ==> final(self)@.started == old(self)@.started,
    {
        let present = control.is_present();
        if present && self.started.is_none() {
            self.started = Some(instant_now());
        }
        if !present {
            self.started = None;
        }
        self.last_snapshot = Some(control);
    }

    /// The latest record, if any.
    pub fn snapshot(&self) -> (r: Option<&GoalControl>)
        ensures
            match r {
                Some(c) => self@.last_snapshot == Some(*c),
                None => self@.last_snapshot is None,
            },
    {
        match &self.last_snapshot {
            Some(c) => Some(c),
            None => None,
        }
    }

    /// Milliseconds since the goal appeared; `0` while no goal is present.
    pub fn elapsed_ms(&self) -> (r: u64)
        ensures
            self@.started is None ==> r == 0,
    {
        match &self.started {
            Some(t) => {
                let d = instant_elapsed(t);
                let ms = duration_as_millis(&d);
                ms as u64
            },
            None => 0,
        }
    }

    /// The reminder that asks the model to keep working on `control`'s goal.
    pub fn continuation_directive(control: &GoalControl) -> (r: String)
        ensures
            r@ == continuation_text(control.objective@),
    {
        let mut out = String::from_str("<system-reminder>\nGoal still ACTIVE. Objective: ");
        push_str(&mut out, control.objective.as_str());
        push_str(
            &mut out,
            "\nContinue working. Do not stop until the objective is fully achieved\nwith verifiable evidence. When done, call update_goal with completed=true\nand a short summary. If blocked after repeated failures, call update_goal\nwith blocked_reason. Do not claim completion without running checks.\n</system-reminder>",
        );
        out
    }
}

/// The budget a `--budget` operand sets, if it parses: negative values
/// count as zero.
pub open spec fn budget_of(token: Seq<char>) -> Option<i64> {
    match parse_i64_spec(token) {
        Some(n) => Some(if n < 0 { 0i64 } else { n as i64 }),
        None => None,
    }
}

/// `/goal` arguments read left to right: each `--budget N` whose `N` parses
/// sets the budget (the last one wins); every other word belongs to the
/// objective.
pub open spec fn goal_args(tokens: Seq<Seq<char>>) -> (Seq<Seq<char>>, Option<i64>)
    decreases tokens.len(),
{
    if tokens.len() == 0 {
        (Seq::empty(), None)
    } else if tokens[0] == "--budget"@ && tokens.len() >= 2 && budget_of(tokens[1]) is Some {
        let rest = goal_args(tokens.skip(2));
        (rest.0, if rest.1 is Some { rest.1 } else { budget_of(tokens[1]) })
    } else {
        let rest = goal_args(tokens.skip(1));
        (seq![tokens[0]] + rest.0, rest.1)
    }
}

/// What `parse_goal_set_args` returns for `args`: the objective words joined
/// by single spaces, and the budget.
pub open spec fn goal_set_args_spec(args: Seq<char>) -> (Seq<char>, Option<i64>) {
    let (words, budget) = goal_args(split_ws(args));
    (join(words, " "@), budget)
}

/// Parse `--budget N` and the objective from `/goal` arguments.
pub fn parse_goal_set_args(args: &str) -> (r: (String, Option<i64>))
    ensures
        (r.0@, r.1) == goal_set_args_spec(args@),
{
    let tokens = split_whitespace(args);
    let ghost toks = tokens.deep_view();
    let mut budget: Option<i64> = None;
    let mut parts: Vec<String> = Vec::new();
    let mut i: usize = 0;
    assert(toks.skip(0) =~= toks);
    assert(parts.deep_view() =~= Seq::<Seq<char>>::empty());
    while i < tokens.len()
        invariant
            toks == tokens.deep_view(),
            i <= tokens.len(),
            ({
                let rest = goal_args(toks.skip(i as int));
                goal_args(toks) == (parts.deep_view() + rest.0, if rest.1 is Some {
                    rest.1
                } else {
                    budget
                })
            }),
        decreases tokens.len() - i,
    {
        let ghost suffix = toks.skip(i as int);
        assert(suffix[0] == tokens@[i as int]@);
        let is_flag = str_eq(tokens[i].as_str(), "--budget");
        if is_flag && i + 1 < tokens.len() {
            assert(suffix[1] == tokens@[i + 1]@);
            match parse_i64(tokens[i + 1].as_str()) {
                Some(n) => {
                    budget = Some(if n < 0 { 0 } else { n });
                    assert(suffix.skip(2) =~= toks.skip(i + 2));
                    i = i + 2;
                    continue;
                },
                None => {},
            }
        }
        assert(suffix.skip(1) =~= toks.skip(i + 1));
        let ghost before = parts.deep_view();
        let word = tokens[i].clone();
        parts.push(word);
        proof {
            let rest = goal_args(toks.skip(i + 1));
            assert(parts.deep_view() =~= before.push(toks[i as int]));
            assert(before + (seq![toks[i as int]] + rest.0) =~= parts.deep_view() + rest.0);
        }
        i = i + 1;
    }
    assert(toks.skip(tokens.len() as int) =~= Seq::<Seq<char>>::empty());
    assert(parts.deep_view() + Seq::<Seq<char>>::empty() =~= parts.deep_view());
    (join_strings(&parts, " "), budget)
}

// ─── Goal notifications ──────────────────────────────────────────────────────

/// A JSON number model of a signed count.
pub open spec fn int_model(n: i64) -> JsonModel {
    crate::todo_bridge::i64_number(n)
}

/// A JSON string model, or `null`.
pub open spec fn opt_text_model(s: Option<String>) -> JsonModel {
    match s {
        Some(t) => JsonModel::Str(t@),
        None => JsonModel::Null,
    }
}

/// The pager's goal-updated notification for `control`, `elapsed_ms` after
/// the goal appeared.
pub open spec fn goal_notification(session_id: Seq<char>, control: GoalControl, elapsed_ms: u64) -> JsonModel {
    JsonModel::Object(
        seq![
            ("sessionId"@, JsonModel::Str(session_id)),
            (
                "update"@,
                JsonModel::Object(
                    seq![
                        ("sessionUpdate"@, JsonModel::Str("goal_updated"@)),
                        ("goal_id"@, JsonModel::Str(control.goal_id@)),
                        ("objective"@, JsonModel::Str(control.objective@)),
                        ("status"@, JsonModel::Str(control.status@)),
                        ("phase"@, JsonModel::Str(control.phase@)),
                        (
                            "token_budget"@,
                            match control.token_budget {
                                Some(b) => int_model(b),
                                None => JsonModel::Null,
                            },
                        ),
                        ("tokens_used"@, int_model(control.tokens_used)),
                        ("elapsed_ms"@, crate::adapter::count_model(elapsed_ms)),
                        ("total_deliverables"@, crate::adapter::count_model(0)),
                        ("completed_deliverables"@, crate::adapter::count_model(0)),
                        ("total_worker_rounds"@, crate::adapter::count_model(0)),
                        ("total_verify_rounds"@, crate::adapter::count_model(0)),
                        ("token_baseline"@, int_model(control.token_baseline)),
                        ("finished_subagent_tokens"@, crate::adapter::count_model(0)),
                        ("last_event"@, opt_text_model(control.last_event)),
                        ("last_event_detail"@, opt_text_model(control.last_event_detail)),
                        ("pause_message"@, opt_text_model(control.pause_message)),
                    ],
                ),
            ),
        ],
    )
}

fn int_value(n: i64) -> (r: Json)
    ensures
        r@ == int_model(n),
{
    Json::Number(
        JsonNumber {
            as_u64: if n >= 0 { Some(n as u64) } else { None },
            as_i64: Some(n),
            rounded: if n >= 0 { Some(n as u64) } else { None },
            text: crate::text::i64_to_string(n),
        },
    )
}

fn count_value(n: u64) -> (r: Json)
    ensures
        r@ == crate::adapter::count_model(n),
{
    Json::Number(
        JsonNumber {
            as_u64: Some(n),
            as_i64: if n <= i64::MAX as u64 { Some(n as i64) } else { None },
            rounded: Some(n),
            text: crate::text::u64_to_string(n),
        },
    )
}

fn opt_text_value(s: &Option<String>) -> (r: Json)
    ensures
        r@ == opt_text_model(*s),
{
    match s {
        Some(t) => text_value(t.as_str()),
        None => Json::Null,
    }
}

fn member(key: &str, value: Json) -> (r: (String, Json))
    ensures
        r.0@ == key@,
        r.1 == value,
{
    (key.to_string(), value)
}

/// The goal-updated notification for `control` at `elapsed_ms` (see
/// [`goal_notification`]).
pub fn goal_notification_at(session_id: &str, control: &GoalControl, elapsed_ms: u64) -> (r: Json)
    ensures
        r@ == goal_notification(session_id@, *control, elapsed_ms),
{
    let mut u: Vec<(String, Json)> = Vec::new();
    u.push(member("sessionUpdate", text_value("goal_updated")));
    u.push(member("goal_id", text_value(control.goal_id.as_str())));
    u.push(member("objective", text_value(control.objective.as_str())));
    u.push(member("status", text_value(control.status.as_str())));
    u.push(member("phase", text_value(control.phase.as_str())));
    u.push(
        member(
            "token_budget",
            match control.token_budget {
                Some(b) => int_value(b),
                None => Json::Null,
            },
        ),
    );
    u.push(member("tokens_used", int_value(control.tokens_used)));
    u.push(member("elapsed_ms", count_value(elapsed_ms)));
    u.push(member("total_deliverables", count_value(0)));
    u.push(member("completed_deliverables", count_value(0)));
    u.push(member("total_worker_rounds", count_value(0)));
    u.push(member("total_verify_rounds", count_value(0)));
    u.push(member("token_baseline", int_value(control.token_baseline)));
    u.push(member("finished_subagent_tokens", count_value(0)));
    u.push(member("last_event", opt_text_value(&control.last_event)));
    u.push(member("last_event_detail", opt_text_value(&control.last_event_detail)));
    u.push(member("pause_message", opt_text_value(&control.pause_message)));
    let ghost uv = u@;
    let update = object(u);
    let mut outer: Vec<(String, Json)> = Vec::new();
    outer.push(member("sessionId", text_value(session_id)));
    outer.push(member("update", update));
    let ghost ov = outer@;
    let r = object(outer);
    proof {
        let expected = goal_notification(session_id@, *control, elapsed_ms);
        assert(member_models(uv) =~= expected->Object_0[1].1->Object_0);
        assert(member_models(ov) =~= expected->Object_0);
    }
    r
}

impl GoalHost {
    /// The goal-updated notification for `control`, timed by this host's
    /// clock: the elapsed time is whatever the clock gives (0 while no goal
    /// is present).
    pub fn notification_payload(&self, session_id: &str, control: &GoalControl) -> (r: Json)
        ensures
            exists|ms: u64| r@ == goal_notification(session_id@, *control, ms) && (self@.started is None ==> ms == 0),
    {
        let ms = self.elapsed_ms();
        goal_notification_at(session_id, control, ms)
    }
}

} // verus!
