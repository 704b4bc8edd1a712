//! What the adapter does with each event of Pi's RPC stream: the state it
//! keeps itself (which prompts saw the agent start, plan mode, the queue
//! mirror) changes here, and everything that needs the client connection or
//! another RPC round trip comes back as a list of actions for the caller to
//! perform, in order.
use crate::adapter::message_role;
use crate::json::{bool_of, field, first_str, get_bool, get_str, get_u64, opt_str_view, or_empty, str1, str2, str3, str_of, u64_of, Json};
use crate::model::{json_text, json_text_spec};
use crate::plan_mode::{complete_deferred_exit_spec, PiPlanState, PiPlanTracker, PlanModel};
use crate::queue_bridge::{MirrorModel, QueueMirror};
use crate::text::{decimal, push_decimal, push_str, str_eq, to_owned};
use vstd::prelude::*;

verus! {

/// Why the open prompts are finished.
#[derive(Debug, Clone, Copy, PartialEq, Eq, Structural)]
pub enum StopReason {
    EndTurn,
    Cancelled,
}

/// One thing to do for an event, beyond the adapter's own state.
#[derive(Debug, Clone)]
pub enum EventAction {
    /// Ask Pi for the context usage again.
    RefreshContextUsage,
    /// Save the plan-mode state next to the plan file.
    PersistPlanMode,
    /// Rewrite the plan-mode control file for the extension.
    SyncPlanModeControl,
    /// Tell the client that the session mode is now this one.
    SendModeUpdate(String),
    /// Send the queue mirror to the client again.
    RebroadcastQueueMirror,
    /// Finish every open prompt with this reason.
    FinishPrompts(StopReason),
    /// Continue the session goal if one is still active.
    MaybeContinueGoal,
    /// An assistant message started streaming.
    StartAssistantMessage,
    /// Stream a message update to the client.
    MessageUpdate,
    /// A message ended: offer it to the bridges, else show it.
    MessageEnd,
    /// An entry was appended: offer it to the workflow, goal and subagent
    /// bridges.
    EntryAppended,
    ToolStart,
    ToolUpdate,
    ToolEnd,
    /// Answer an extension dialog.
    ExtensionUi,
    /// Show a notification `(message, level)`.
    Notify(String, String),
    CompactionStart,
    CompactionEnd,
    /// Show the retry status for attempt `attempt` of `maximum`, after
    /// `delay_ms`, with the error text.
    RetryStarted { attempt: u64, maximum: u64, delay_ms: u64, error: String },
    /// Clear the status line of this key.
    ClearStatus(String),
    /// Mirror Pi's queue arrays into the client's queue pane.
    ApplyQueueUpdate,
    /// Read Pi's state again and publish it.
    RefreshBootstrap,
}

/// An action with its texts as sequences.
pub enum ActionModel {
    RefreshContextUsage,
    PersistPlanMode,
    SyncPlanModeControl,
    SendModeUpdate(Seq<char>),
    RebroadcastQueueMirror,
    FinishPrompts(StopReason),
    MaybeContinueGoal,
    StartAssistantMessage,
    MessageUpdate,
    MessageEnd,
    EntryAppended,
    ToolStart,
    ToolUpdate,
    ToolEnd,
    ExtensionUi,
    Notify(Seq<char>, Seq<char>),
    CompactionStart,
    CompactionEnd,
    RetryStarted { attempt: u64, maximum: u64, delay_ms: u64, error: Seq<char> },
    ClearStatus(Seq<char>),
    ApplyQueueUpdate,
    RefreshBootstrap,
}

/// The model of an action.
pub open spec fn action_view(a: EventAction) -> ActionModel {
    match a {
        EventAction::RefreshContextUsage => ActionModel::RefreshContextUsage,
        EventAction::PersistPlanMode => ActionModel::PersistPlanMode,
        EventAction::SyncPlanModeControl => ActionModel::SyncPlanModeControl,
        EventAction::SendModeUpdate(m) => ActionModel::SendModeUpdate(m@),
        EventAction::RebroadcastQueueMirror => ActionModel::RebroadcastQueueMirror,
        EventAction::FinishPrompts(r) => ActionModel::FinishPrompts(r),
        EventAction::MaybeContinueGoal => ActionModel::MaybeContinueGoal,
        EventAction::StartAssistantMessage => ActionModel::StartAssistantMessage,
        EventAction::MessageUpdate => ActionModel::MessageUpdate,
        EventAction::MessageEnd => ActionModel::MessageEnd,
        EventAction::EntryAppended => ActionModel::EntryAppended,
        EventAction::ToolStart => ActionModel::ToolStart,
        EventAction::ToolUpdate => ActionModel::ToolUpdate,
        EventAction::ToolEnd => ActionModel::ToolEnd,
        EventAction::ExtensionUi => ActionModel::ExtensionUi,
        EventAction::Notify(m, l) => ActionModel::Notify(m@, l@),
        EventAction::CompactionStart => ActionModel::CompactionStart,
        EventAction::CompactionEnd => ActionModel::CompactionEnd,
        EventAction::RetryStarted { attempt, maximum, delay_ms, error } => ActionModel::RetryStarted {
            attempt,
            maximum,
            delay_ms,
            error: error@,
        },
        EventAction::ClearStatus(k) => ActionModel::ClearStatus(k@),
        EventAction::ApplyQueueUpdate => ActionModel::ApplyQueueUpdate,
        EventAction::RefreshBootstrap => ActionModel::RefreshBootstrap,
    }
}

/// The models of a list of actions.
pub open spec fn actions_view(actions: Seq<EventAction>) -> Seq<ActionModel> {
    actions.map_values(|a: EventAction| action_view(a))
}

/// The adapter state that events change.
pub struct AdapterState {
    /// For each open prompt, whether the agent has started on it.
    pub prompts_started: Vec<bool>,
    pub plan_mode: PiPlanTracker,
    pub queue_mirror: QueueMirror,
}

/// The model of [`AdapterState`].
pub struct AdapterModel {
    pub prompts_started: Seq<bool>,
    pub plan: PlanModel,
    pub mirror: MirrorModel,
}

impl View for AdapterState {
    type V = AdapterModel;

    open spec fn view(&self) -> AdapterModel {
        AdapterModel {
            prompts_started: self.prompts_started@,
            plan: self.plan_mode@,
            mirror: self.queue_mirror@,
        }
    }
}

/// The event's kind: its `type` when present (empty unless it is a
/// string), else its `event`.
pub open spec fn event_type(e: Json) -> Seq<char> {
    match field(e, "type"@) {
        Some(v) => or_empty(str_of(Some(v))),
        None => or_empty(str_of(field(e, "event"@))),
    }
}

/// The message of an `extension_error` event: its `error` as display text
/// when that is not empty, else its `message`, else a fixed text.
pub open spec fn extension_error_text(e: Json) -> Seq<char> {
    match field(e, "error"@) {
        Some(v) if json_text_spec(v).len() > 0 => json_text_spec(v),
        _ => match first_str(e, seq!["message"@]) {
            Some(m) => m,
            None => "Pi extension error"@,
        },
    }
}

/// The actions for event `e` (`exit_pending`: whether plan mode was waiting
/// for the turn to end before exiting).
pub open spec fn event_actions_spec(exit_pending: bool, e: Json) -> Seq<ActionModel> {
    let t = event_type(e);
    if t == "agent_start"@ {
        Seq::empty()
    } else if t == "agent_settled"@ {
        seq![ActionModel::RefreshContextUsage] + (if exit_pending {
            seq![
                ActionModel::PersistPlanMode,
                ActionModel::SyncPlanModeControl,
                ActionModel::SendModeUpdate("default"@),
            ]
        } else {
            Seq::empty()
        }) + seq![
            ActionModel::RebroadcastQueueMirror,
            ActionModel::FinishPrompts(StopReason::EndTurn),
            ActionModel::MaybeContinueGoal,
        ]
    } else if t == "turn_end"@ {
        seq![ActionModel::RefreshContextUsage]
    } else if t == "message_start"@ {
        if match field(e, "message"@) {
            Some(m) => first_str(m, seq!["role"@, "type"@]),
            None => None,
        } == Some("assistant"@) {
            seq![ActionModel::StartAssistantMessage]
        } else {
            Seq::empty()
        }
    } else if t == "message_update"@ {
        seq![ActionModel::MessageUpdate]
    } else if t == "message_end"@ {
        seq![ActionModel::MessageEnd]
    } else if t == "entry_appended"@ {
        seq![ActionModel::EntryAppended]
    } else if t == "tool_execution_start"@ {
        seq![ActionModel::ToolStart]
    } else if t == "tool_execution_update"@ {
        seq![ActionModel::ToolUpdate]
    } else if t == "tool_execution_end"@ {
        seq![ActionModel::ToolEnd]
    } else if t == "extension_ui_request"@ {
        seq![ActionModel::ExtensionUi]
    } else if t == "extension_error"@ {
        seq![ActionModel::Notify(extension_error_text(e), "error"@)]
    } else if t == "compaction_start"@ || t == "auto_compaction_start"@ {
        seq![ActionModel::CompactionStart]
    } else if t == "compaction_end"@ || t == "auto_compaction_end"@ {
        seq![ActionModel::CompactionEnd]
    } else if t == "auto_retry_start"@ {
        seq![
            ActionModel::RetryStarted {
                attempt: match u64_of(field(e, "attempt"@)) { Some(n) => n, None => 0 },
                maximum: match u64_of(field(e, "maxAttempts"@)) { Some(n) => n, None => 0 },
                delay_ms: match u64_of(field(e, "delayMs"@)) { Some(n) => n, None => 0 },
                error: or_empty(first_str(e, seq!["errorMessage"@, "message"@, "reason"@])),
            },
        ]
    } else if t == "auto_retry_end"@ {
        seq![ActionModel::ClearStatus("retry"@)] + (if bool_of(field(e, "success"@)) == Some(false) && first_str(
            e,
            seq!["finalError"@, "errorMessage"@],
        ) is Some {
            seq![ActionModel::Notify(first_str(e, seq!["finalError"@, "errorMessage"@]).unwrap(), "error"@)]
        } else {
            Seq::empty()
        })
    } else if t == "queue_update"@ {
        seq![ActionModel::ApplyQueueUpdate]
    } else if t == "thinking_level_changed"@ || t == "session_info_changed"@ {
        seq![ActionModel::RefreshBootstrap]
    } else if t == "adapter_diagnostic"@ {
        match first_str(e, seq!["message"@]) {
            Some(m) => seq![ActionModel::Notify(m, "warning"@)],
            None => Seq::empty(),
        }
    } else if t == "adapter_process_exit"@ {
        seq![
            ActionModel::Notify(
                match first_str(e, seq!["message"@]) {
                    Some(m) => m,
                    None => "Pi RPC process exited"@,
                },
                "error"@,
            ),
            ActionModel::FinishPrompts(StopReason::Cancelled),
        ]
    } else {
        Seq::empty()
    }
}

/// The adapter state after event `e`: `agent_start` marks every open prompt
/// started; `agent_settled` clears the running prompt of the queue mirror
/// and completes a deferred plan-mode exit.
pub open spec fn event_state_spec(m: AdapterModel, e: Json) -> AdapterModel {
    let t = event_type(e);
    if t == "agent_start"@ {
        AdapterModel { prompts_started: Seq::new(m.prompts_started.len(), |i: int| true), ..m }
    } else if t == "agent_settled"@ {
        AdapterModel {
            mirror: MirrorModel { running_prompt_id: None, ..m.mirror },
            plan: complete_deferred_exit_spec(m.plan),
            ..m
        }
    } else {
        m
    }
}

/// The event's kind (see [`event_type`]).
fn event_type_of(event: &Json) -> (r: &str)
    ensures
        r@ == event_type(*event),
{
    proof {
        reveal_strlit("");
    }
    match event.get("type") {
        Some(v) => match v {
            Json::Str(s) => s.as_str(),
            _ => "",
        },
        None => match get_str(event, "event") {
            Some(s) => s,
            None => "",
        },
    }
}

fn notify(message: String, level: &str) -> (a: EventAction)
    ensures
        action_view(a) == ActionModel::Notify(message@, level@),
{
    EventAction::Notify(message, to_owned(level))
}

fn one(a: EventAction) -> (v: Vec<EventAction>)
    ensures
        actions_view(v@) == seq![action_view(a)],
{
    let mut v: Vec<EventAction> = Vec::new();
    v.push(a);
    assert(actions_view(v@) =~= seq![action_view(a)]);
    v
}

/// The message of an `extension_error` event (see
/// [`extension_error_text`]).
fn extension_error_message(event: &Json) -> (r: String)
    ensures
        r@ == extension_error_text(*event),
{
    match event.get("error") {
        Some(v) => {
            let text = json_text(v);
            if text.as_str().unicode_len() > 0 {
                return text;
            }
        },
        None => {},
    }
    match str1(event, "message") {
        Some(m) => to_owned(m),
        None => String::from_str("Pi extension error"),
    }
}

/// Handle one event of Pi's stream: update the adapter state and return
/// what the caller must do, in order.
pub fn event_step(state: &mut AdapterState, event: &Json) -> (actions: Vec<EventAction>)
    ensures
        final(state)@ == event_state_spec(old(state)@, *event),
        actions_view(actions@) == event_actions_spec(old(state)@.plan.state == PiPlanState::ExitPending, *event),
{
    let ghost e = *event;
    let t = event_type_of(event);
    let mut out: Vec<EventAction> = Vec::new();
    if str_eq(t, "agent_start") {
        let n = state.prompts_started.len();
        let mut i: usize = 0;
        while i < n
            invariant
                i <= n,
                n == state.prompts_started.len(),
                state.plan_mode@ == old(state).plan_mode@,
                state.queue_mirror@ == old(state).queue_mirror@,
                forall|k: int| 0 <= k < i ==> state.prompts_started@[k],
            decreases n - i,
        {
            state.prompts_started.set(i, true);
            i = i + 1;
        }
        assert(state.prompts_started@ =~= Seq::new(n as nat, |i: int| true));
        assert(actions_view(out@) =~= Seq::<ActionModel>::empty());
        return out;
    }
    if str_eq(t, "agent_settled") {
        let exit_pending = state.plan_mode.state() == PiPlanState::ExitPending;
        state.queue_mirror.clear_running();
        state.plan_mode.complete_deferred_exit();
        out.push(EventAction::RefreshContextUsage);
        if exit_pending {
            out.push(EventAction::PersistPlanMode);
            out.push(EventAction::SyncPlanModeControl);
            out.push(EventAction::SendModeUpdate(String::from_str("default")));
        }
        out.push(EventAction::RebroadcastQueueMirror);
        out.push(EventAction::FinishPrompts(StopReason::EndTurn));
        out.push(EventAction::MaybeContinueGoal);
        assert(actions_view(out@) =~= event_actions_spec(exit_pending, e));
        return out;
    }
    proof {
        assert(event_state_spec(old(state)@, e) == old(state)@);
    }
    if str_eq(t, "turn_end") {
        return one(EventAction::RefreshContextUsage);
    }
    if str_eq(t, "message_start") {
        match message_role(event) {
            Some(r) => if str_eq(r, "assistant") {
                return one(EventAction::StartAssistantMessage);
            },
            None => {},
        }
        assert(actions_view(out@) =~= Seq::<ActionModel>::empty());
        return out;
    }
    if str_eq(t, "message_update") {
        return one(EventAction::MessageUpdate);
    }
    if str_eq(t, "message_end") {
        return one(EventAction::MessageEnd);
    }
    if str_eq(t, "entry_appended") {
        return one(EventAction::EntryAppended);
    }
    if str_eq(t, "tool_execution_start") {
        return one(EventAction::ToolStart);
    }
    if str_eq(t, "tool_execution_update") {
        return one(EventAction::ToolUpdate);
    }
    if str_eq(t, "tool_execution_end") {
        return one(EventAction::ToolEnd);
    }
    if str_eq(t, "extension_ui_request") {
        return one(EventAction::ExtensionUi);
    }
    if str_eq(t, "extension_error") {
        return one(notify(extension_error_message(event), "error"));
    }
    if str_eq(t, "compaction_start") || str_eq(t, "auto_compaction_start") {
        return one(EventAction::CompactionStart);
    }
    if str_eq(t, "compaction_end") || str_eq(t, "auto_compaction_end") {
        return one(EventAction::CompactionEnd);
    }
    if str_eq(t, "auto_retry_start") {
        let error = match str3(event, "errorMessage", "message", "reason") {
            Some(s) => to_owned(s),
            None => String::new(),
        };
        return one(
            EventAction::RetryStarted {
                attempt: match get_u64(event, "attempt") {
                    Some(n) => n,
                    None => 0,
                },
                maximum: match get_u64(event, "maxAttempts") {
                    Some(n) => n,
                    None => 0,
                },
                delay_ms: match get_u64(event, "delayMs") {
                    Some(n) => n,
                    None => 0,
                },
                error,
            },
        );
    }
    if str_eq(t, "auto_retry_end") {
        out.push(EventAction::ClearStatus(String::from_str("retry")));
        if get_bool(event, "success") == Some(false) {
            match str2(event, "finalError", "errorMessage") {
                Some(err) => out.push(notify(to_owned(err), "error")),
                None => {},
            }
        }
        assert(actions_view(out@) =~= event_actions_spec(false, e));
        return out;
    }
    if str_eq(t, "queue_update") {
        return one(EventAction::ApplyQueueUpdate);
    }
    if str_eq(t, "thinking_level_changed") || str_eq(t, "session_info_changed") {
        return one(EventAction::RefreshBootstrap);
    }
    if str_eq(t, "adapter_diagnostic") {
        match str1(event, "message") {
            Some(m) => return one(notify(to_owned(m), "warning")),
            None => {},
        }
        assert(actions_view(out@) =~= Seq::<ActionModel>::empty());
        return out;
    }
    if str_eq(t, "adapter_process_exit") {
        let message = match str1(event, "message") {
            Some(m) => to_owned(m),
            None => String::from_str("Pi RPC process exited"),
        };
        out.push(notify(message, "error"));
        out.push(EventAction::FinishPrompts(StopReason::Cancelled));
        assert(actions_view(out@) =~= event_actions_spec(false, e));
        return out;
    }
    assert(actions_view(out@) =~= Seq::<ActionModel>::empty());
    out
}

/// The retry status text: `Retrying n/max` (or just `Retrying` without a
/// maximum), then ` in <seconds>s` when a delay is given, then `: <error>`
/// when there is an error text.
pub open spec fn retry_text(attempt: u64, maximum: u64, delay_seconds: Option<Seq<char>>, error: Seq<char>) -> Seq<char> {
    (if maximum > 0 {
        "Retrying "@ + decimal(attempt as nat) + "/"@ + decimal(maximum as nat)
    } else {
        "Retrying"@
    }) + (match delay_seconds {
        Some(s) => " in "@ + s + "s"@,
        None => Seq::empty(),
    }) + (if error.len() > 0 {
        ": "@ + error
    } else {
        Seq::empty()
    })
}

/// The status line of an automatic retry (see [`retry_text`]);
/// `delay_seconds` is the delay already written in seconds.
pub fn retry_status_text(attempt: u64, maximum: u64, delay_seconds: Option<&str>, error: &str) -> (r: String)
    ensures
        r@ == retry_text(attempt, maximum, opt_str_view(delay_seconds), error@),
{
    let mut out = String::new();
    if maximum > 0 {
        push_str(&mut out, "Retrying ");
        push_decimal(&mut out, attempt);
        push_str(&mut out, "/");
        push_decimal(&mut out, maximum);
    } else {
        push_str(&mut out, "Retrying");
    }
    match delay_seconds {
        Some(s) => {
            push_str(&mut out, " in ");
            push_str(&mut out, s);
            push_str(&mut out, "s");
        },
        None => {},
    }
    if error.unicode_len() > 0 {
        push_str(&mut out, ": ");
        push_str(&mut out, error);
    }
    assert(out@ =~= retry_text(attempt, maximum, opt_str_view(delay_seconds), error@));
    out
}

} // verus!
