//! Plan mode lifecycle tracker for a Pi session.
//!
//! Pi has no mode concept, so the adapter owns the whole plan-mode state
//! machine and injects reminders as prompt prefixes.  The tracker is a pure
//! state machine: no I/O.  Its abstract state is [`PlanModel`]; every
//! transition is stated as a spec function over it, and the lifecycle laws are
//! proof functions at the end of this file.
use crate::path::{join, join_spec, path_eq, path_eq_spec};
use vstd::prelude::*;

verus! {

/// Plan mode lifecycle states.
#[derive(Debug, Clone, Copy, PartialEq, Eq, Structural)]
pub enum PiPlanState {
    /// Normal operating mode. No plan mode constraints.
    Inactive,
    /// Plan mode toggled on, but no prompt has been sent yet.
    Pending,
    /// Plan mode is active; the model has received plan mode instructions.
    Active,
    /// Plan mode toggled off while a turn is in flight.
    ExitPending,
}

/// Persistable snapshot of a tracker (the plan file path is not part of it).
#[derive(Debug, Clone, Copy, PartialEq, Eq, Structural)]
pub struct PiPlanSnapshot {
    pub state: PiPlanState,
    pub was_previously_active: bool,
    pub reminder_count: u32,
    pub pending_exit_reminder: bool,
    pub awaiting_plan_approval: bool,
}

/// Abstract state of a [`PiPlanTracker`].
pub struct PlanModel {
    pub state: PiPlanState,
    pub was_previously_active: bool,
    pub reminder_count: u32,
    pub pending_exit_reminder: bool,
    pub awaiting_plan_approval: bool,
    pub plan_file_path: Seq<char>,
}

/// Tracks the plan mode lifecycle of one Pi session.
pub struct PiPlanTracker {
    state: PiPlanState,
    was_previously_active: bool,
    reminder_count: u32,
    pending_exit_reminder: bool,
    awaiting_plan_approval: bool,
    plan_file_path: String,
}

impl View for PiPlanTracker {
    type V = PlanModel;

    closed spec fn view(&self) -> PlanModel {
        PlanModel {
            state: self.state,
            was_previously_active: self.was_previously_active,
            reminder_count: self.reminder_count,
            pending_exit_reminder: self.pending_exit_reminder,
            awaiting_plan_approval: self.awaiting_plan_approval,
            plan_file_path: self.plan_file_path@,
        }
    }
}

// ─── Transitions on the abstract state ──────────────────────────────────────

/// A fresh tracker for `path`.
pub open spec fn fresh(path: Seq<char>) -> PlanModel {
    PlanModel {
        state: PiPlanState::Inactive,
        was_previously_active: false,
        reminder_count: 0,
        pending_exit_reminder: false,
        awaiting_plan_approval: false,
        plan_file_path: path,
    }
}

/// The snapshot of a state.
pub open spec fn snapshot_of(m: PlanModel) -> PiPlanSnapshot {
    PiPlanSnapshot {
        state: m.state,
        was_previously_active: m.was_previously_active,
        reminder_count: m.reminder_count,
        pending_exit_reminder: m.pending_exit_reminder,
        awaiting_plan_approval: m.awaiting_plan_approval,
    }
}

/// Restoring a snapshot: `Pending` collapses to `Inactive`; `ExitPending`
/// collapses to `Inactive` with the exit reminder owed.
pub open spec fn restore(path: Seq<char>, s: PiPlanSnapshot) -> PlanModel {
    PlanModel {
        state: match s.state {
            PiPlanState::Pending | PiPlanState::ExitPending => PiPlanState::Inactive,
            other => other,
        },
        was_previously_active: s.was_previously_active,
        reminder_count: s.reminder_count,
        pending_exit_reminder: s.pending_exit_reminder || s.state == PiPlanState::ExitPending,
        awaiting_plan_approval: s.awaiting_plan_approval,
        plan_file_path: path,
    }
}

/// Plan mode toggled on: `Inactive → Pending`, `ExitPending → Active`
/// (cancelling the deferred exit); other states are unchanged.
pub open spec fn enter_pending_spec(m: PlanModel) -> (PlanModel, bool) {
    match m.state {
        PiPlanState::Inactive => (
            PlanModel { state: PiPlanState::Pending, pending_exit_reminder: false, ..m },
            true,
        ),
        PiPlanState::ExitPending => (
            PlanModel { state: PiPlanState::Active, pending_exit_reminder: false, ..m },
            true,
        ),
        _ => (m, false),
    }
}

/// First prompt while `Pending`: the state becomes `Active`.
pub open spec fn activate_spec(m: PlanModel) -> (PlanModel, bool) {
    if m.state == PiPlanState::Pending {
        (
            PlanModel {
                state: PiPlanState::Active,
                was_previously_active: true,
                reminder_count: 0,
                ..m
            },
            true,
        )
    } else {
        (m, false)
    }
}

/// Plan mode toggled off.
pub open spec fn user_exit_spec(m: PlanModel, turn_in_flight: bool) -> PlanModel {
    let m1 = PlanModel { awaiting_plan_approval: false, ..m };
    match m.state {
        PiPlanState::Pending => PlanModel { state: PiPlanState::Inactive, ..m1 },
        PiPlanState::Active => if turn_in_flight {
            PlanModel { state: PiPlanState::ExitPending, ..m1 }
        } else {
            PlanModel { state: PiPlanState::Inactive, pending_exit_reminder: true, ..m1 }
        },
        _ => m1,
    }
}

/// The in-flight turn completed.
pub open spec fn complete_deferred_exit_spec(m: PlanModel) -> PlanModel {
    if m.state == PiPlanState::ExitPending {
        PlanModel { state: PiPlanState::Inactive, pending_exit_reminder: true, ..m }
    } else {
        m
    }
}

/// `exit_plan_mode` was approved.
pub open spec fn deactivate_approved_spec(m: PlanModel) -> (PlanModel, bool) {
    if m.state == PiPlanState::Active {
        (
            PlanModel {
                state: PiPlanState::Inactive,
                reminder_count: 0,
                awaiting_plan_approval: false,
                pending_exit_reminder: true,
                ..m
            },
            true,
        )
    } else {
        (m, false)
    }
}

/// After compaction the reminder counter restarts (only while `Active`).
pub open spec fn reset_after_compaction_spec(m: PlanModel) -> PlanModel {
    if m.state == PiPlanState::Active {
        PlanModel { reminder_count: 0, ..m }
    } else {
        m
    }
}

// ─── Reminder texts ──────────────────────────────────────────────────────────

/// Text wrapped in a `<system-reminder>` block.
pub open spec fn wrap_reminder(body: Seq<char>) -> Seq<char> {
    "<system-reminder>\n"@ + body + "\n</system-reminder>"@
}

/// The full per-turn reminder naming the plan file.
pub open spec fn full_reminder(path: Seq<char>) -> Seq<char> {
    wrap_reminder(
        "Plan mode is active. Do not make any edits or writes to the system.\n\n## Plan File:\nWrite your plan to "@
            + path
            + " using the write or edit tool.\nThis is the only file you are allowed to edit.\n\nAsk clarifying questions in your response when needed, or call exit_plan_mode to present your plan to the user."@,
    )
}

/// The short per-turn reminder.
pub open spec fn sparse_reminder() -> Seq<char> {
    wrap_reminder(
        "Plan mode is still active. Do not make any edits or writes to the system except for the plan file."@,
    )
}

/// The reminder sent when plan mode is entered again in the same session.
pub open spec fn reentry_reminder(path: Seq<char>) -> Seq<char> {
    wrap_reminder(
        "## Returning to Plan Mode\n\nYou are entering plan mode again after having previously exited it.\nA plan file exists at "@
            + path
            + " from your previous planning session.\n\nAsk clarifying questions in your response when needed, or call exit_plan_mode to present your plan to the user."@,
    )
}

/// The one-shot reminder after leaving plan mode.
pub open spec fn exit_reminder() -> Seq<char> {
    wrap_reminder(
        "You have exited plan mode. You can now make edits, run tools, and take actions."@,
    )
}

/// Rejection message for a write outside the plan file.
pub open spec fn edit_rejected_text(path: Seq<char>) -> Seq<char> {
    "Rejected: file edits are not allowed in plan mode - the only editable file is the plan file ("@
        + path + ")."@
}

/// What `build_reminder_for_prompt` returns and the state it leaves:
/// activation (`Pending`), then alternating full/sparse reminders (`Active`,
/// full on an even counter), then the one-shot exit reminder.
pub open spec fn build_reminder_spec(m: PlanModel) -> (PlanModel, Option<Seq<char>>) {
    if m.state == PiPlanState::Pending {
        let reentry = m.was_previously_active;
        let m2 = PlanModel {
            state: PiPlanState::Active,
            was_previously_active: true,
            reminder_count: 1,
            ..m
        };
        (
            m2,
            Some(
                if reentry {
                    reentry_reminder(m.plan_file_path)
                } else {
                    full_reminder(m.plan_file_path)
                },
            ),
        )
    } else if m.state == PiPlanState::Active {
        let m2 = PlanModel { reminder_count: (m.reminder_count + 1) as u32, ..m };
        (
            m2,
            Some(
                if m.reminder_count % 2 == 0 {
                    full_reminder(m.plan_file_path)
                } else {
                    sparse_reminder()
                },
            ),
        )
    } else if m.pending_exit_reminder {
        (PlanModel { pending_exit_reminder: false, ..m }, Some(exit_reminder()))
    } else {
        (m, None)
    }
}

/// Whether `build_reminder_for_prompt` can run on this state without the
/// reminder counter overflowing.
pub open spec fn can_build_reminder(m: PlanModel) -> bool {
    m.state == PiPlanState::Active ==> m.reminder_count < u32::MAX
}

// ─── Executable tracker ──────────────────────────────────────────────────────

fn push_literal(out: &mut String, lit: &str)
    ensures
        final(out)@ == old(out)@ + lit@,
{
    out.append(lit);
}

fn wrap(body: String) -> (r: String)
    ensures
        r@ == wrap_reminder(body@),
{
    let mut out = String::new();
    push_literal(&mut out, "<system-reminder>\n");
    out.append(body.as_str());
    push_literal(&mut out, "\n</system-reminder>");
    out
}

fn render_full(path: &str) -> (r: String)
    ensures
        r@ == full_reminder(path@),
{
    let mut body = String::new();
    push_literal(
        &mut body,
        "Plan mode is active. Do not make any edits or writes to the system.\n\n## Plan File:\nWrite your plan to ",
    );
    body.append(path);
    push_literal(
        &mut body,
        " using the write or edit tool.\nThis is the only file you are allowed to edit.\n\nAsk clarifying questions in your response when needed, or call exit_plan_mode to present your plan to the user.",
    );
    wrap(body)
}

fn render_sparse() -> (r: String)
    ensures
        r@ == sparse_reminder(),
{
    let mut body = String::new();
    push_literal(
        &mut body,
        "Plan mode is still active. Do not make any edits or writes to the system except for the plan file.",
    );
    wrap(body)
}

fn render_reentry(path: &str) -> (r: String)
    ensures
        r@ == reentry_reminder(path@),
{
    let mut body = String::new();
    push_literal(
        &mut body,
        "## Returning to Plan Mode\n\nYou are entering plan mode again after having previously exited it.\nA plan file exists at ",
    );
    body.append(path);
    push_literal(
        &mut body,
        " from your previous planning session.\n\nAsk clarifying questions in your response when needed, or call exit_plan_mode to present your plan to the user.",
    );
    wrap(body)
}

fn render_exit() -> (r: String)
    ensures
        r@ == exit_reminder(),
{
    let mut body = String::new();
    push_literal(
        &mut body,
        "You have exited plan mode. You can now make edits, run tools, and take actions.",
    );
    wrap(body)
}

/// Rejection message for a write outside the plan file during plan mode.
pub fn plan_mode_edit_rejected(plan_path: &str) -> (r: String)
    ensures
        r@ == edit_rejected_text(plan_path@),
{
    let mut out = String::new();
    push_literal(
        &mut out,
        "Rejected: file edits are not allowed in plan mode - the only editable file is the plan file (",
    );
    out.append(plan_path);
    push_literal(&mut out, ").");
    out
}

impl PiPlanTracker {
    /// A tracker whose plan file is `plan.md` inside `session_dir`.
    pub fn new(session_dir: String) -> (t: Self)
        ensures
            t@ == fresh(join_spec(session_dir@, "plan.md"@)),
    {
        Self::with_plan_file(join(session_dir.as_str(), "plan.md"))
    }

    /// A tracker for an explicit session-private plan file.
    pub fn with_plan_file(plan_file_path: String) -> (t: Self)
        ensures
            t@ == fresh(plan_file_path@),
    {
        PiPlanTracker {
            state: PiPlanState::Inactive,
            was_previously_active: false,
            reminder_count: 0,
            pending_exit_reminder: false,
            awaiting_plan_approval: false,
            plan_file_path,
        }
    }

    /// Restore from a snapshot with the plan file `plan.md` in `session_dir`.
    pub fn from_snapshot(session_dir: String, snapshot: PiPlanSnapshot) -> (t: Self)
        ensures
            t@ == restore(join_spec(session_dir@, "plan.md"@), snapshot),
    {
        Self::from_snapshot_with_plan_file(join(session_dir.as_str(), "plan.md"), snapshot)
    }

    /// Restore from a snapshot for an explicit plan file; transient states
    /// collapse as [`restore`] states.
    pub fn from_snapshot_with_plan_file(plan_file_path: String, snapshot: PiPlanSnapshot) -> (t:
        Self)
        ensures
            t@ == restore(plan_file_path@, snapshot),
    {
        let mut snapshot = snapshot;
        match snapshot.state {
            PiPlanState::Pending => {
                snapshot.state = PiPlanState::Inactive;
            },
            PiPlanState::ExitPending => {
                snapshot.state = PiPlanState::Inactive;
                snapshot.pending_exit_reminder = true;
            },
            _ => {},
        }
        PiPlanTracker {
            state: snapshot.state,
            was_previously_active: snapshot.was_previously_active,
            reminder_count: snapshot.reminder_count,
            pending_exit_reminder: snapshot.pending_exit_reminder,
            awaiting_plan_approval: snapshot.awaiting_plan_approval,
            plan_file_path,
        }
    }

    /// The current state as a persistable snapshot.
    pub fn snapshot(&self) -> (s: PiPlanSnapshot)
        ensures
            s == snapshot_of(self@),
    {
        PiPlanSnapshot {
            state: self.state,
            was_previously_active: self.was_previously_active,
            reminder_count: self.reminder_count,
            pending_exit_reminder: self.pending_exit_reminder,
            awaiting_plan_approval: self.awaiting_plan_approval,
        }
    }

    pub fn state(&self) -> (s: PiPlanState)
        ensures
            s == self@.state,
    {
        self.state
    }

    pub fn is_active(&self) -> (b: bool)
        ensures
            b == (self@.state == PiPlanState::Active),
    {
        self.state == PiPlanState::Active
    }

    pub fn plan_file_path(&self) -> (p: &str)
        ensures
            p@ == self@.plan_file_path,
    {
        self.plan_file_path.as_str()
    }

    /// Whether the next per-turn reminder is the full one (even counter).
    pub fn should_use_full_reminder(&self) -> (b: bool)
        ensures
            b == (self@.reminder_count % 2 == 0),
    {
        self.reminder_count % 2 == 0
    }

    /// Whether plan mode is being entered again in this session.
    pub fn is_reentry(&self) -> (b: bool)
        ensures
            b == (self@.was_previously_active && self@.state == PiPlanState::Pending),
    {
        self.was_previously_active && self.state == PiPlanState::Pending
    }

    pub fn is_awaiting_plan_approval(&self) -> (b: bool)
        ensures
            b == self@.awaiting_plan_approval,
    {
        self.awaiting_plan_approval
    }

    pub fn set_awaiting_plan_approval(&mut self, awaiting: bool)
        ensures
            final(self)@ == (PlanModel { awaiting_plan_approval: awaiting, ..old(self)@ }),
    {
        self.awaiting_plan_approval = awaiting;
    }

    /// Whether an edit of `edit_path` is auto-approved: plan mode is active and
    /// the path is the plan file (compared as paths).
    pub fn should_auto_approve_edit(&self, edit_path: &str) -> (b: bool)
        ensures
            b == (self@.state == PiPlanState::Active && path_eq_spec(
                edit_path@,
                self@.plan_file_path,
            )),
    {
        self.is_active() && path_eq(edit_path, self.plan_file_path.as_str())
    }

    /// Plan mode toggled on. Returns whether the state changed.
    pub fn enter_pending(&mut self) -> (changed: bool)
        ensures
            (final(self)@, changed) == enter_pending_spec(old(self)@),
    {
        match self.state {
            PiPlanState::Inactive => {
                self.state = PiPlanState::Pending;
                self.pending_exit_reminder = false;
                true
            },
            PiPlanState::ExitPending => {
                self.state = PiPlanState::Active;
                self.pending_exit_reminder = false;
                true
            },
            _ => false,
        }
    }

    /// First prompt while `Pending`. Returns whether the state changed.
    pub fn activate(&mut self) -> (changed: bool)
        ensures
            (final(self)@, changed) == activate_spec(old(self)@),
    {
        if self.state != PiPlanState::Pending {
            return false;
        }
        self.state = PiPlanState::Active;
        self.was_previously_active = true;
        self.reminder_count = 0;
        true
    }

    /// Plan mode toggled off; `turn_in_flight` tells whether a turn runs.
    pub fn user_exit(&mut self, turn_in_flight: bool)
        ensures
            final(self)@ == user_exit_spec(old(self)@, turn_in_flight),
    {
        self.awaiting_plan_approval = false;
        match self.state {
            PiPlanState::Pending => {
                self.state = PiPlanState::Inactive;
            },
            PiPlanState::Active => {
                if turn_in_flight {
                    self.state = PiPlanState::ExitPending;
                } else {
                    self.state = PiPlanState::Inactive;
                    self.pending_exit_reminder = true;
                }
            },
            _ => {},
        }
    }

    /// The in-flight turn finished while `ExitPending`.
    pub fn complete_deferred_exit(&mut self)
        ensures
            final(self)@ == complete_deferred_exit_spec(old(self)@),
    {
        if self.state != PiPlanState::ExitPending {
            return ;
        }
        self.state = PiPlanState::Inactive;
        self.pending_exit_reminder = true;
    }

    /// `exit_plan_mode` approved. Returns whether the state changed.
    pub fn deactivate_approved(&mut self) -> (changed: bool)
        ensures
            (final(self)@, changed) == deactivate_approved_spec(old(self)@),
    {
        if self.state != PiPlanState::Active {
            return false;
        }
        self.state = PiPlanState::Inactive;
        self.reminder_count = 0;
        self.awaiting_plan_approval = false;
        self.pending_exit_reminder = true;
        true
    }

    /// A per-turn reminder was injected: the counter advances.
    pub fn record_reminder_injected(&mut self)
        requires
            old(self)@.reminder_count < u32::MAX,
        ensures
            final(self)@ == (PlanModel {
                reminder_count: (old(self)@.reminder_count + 1) as u32,
                ..old(self)@
            }),
    {
        self.reminder_count = self.reminder_count + 1;
    }

    /// The exit reminder was injected: the flag clears.
    pub fn clear_pending_exit_reminder(&mut self)
        ensures
            final(self)@ == (PlanModel { pending_exit_reminder: false, ..old(self)@ }),
    {
        self.pending_exit_reminder = false;
    }

    pub fn has_pending_exit_reminder(&self) -> (b: bool)
        ensures
            b == self@.pending_exit_reminder,
    {
        self.pending_exit_reminder
    }

    /// After compaction the reminder counter restarts (while `Active`).
    pub fn reset_after_compaction(&mut self)
        ensures
            final(self)@ == reset_after_compaction_spec(old(self)@),
    {
        if self.state == PiPlanState::Active {
            self.reminder_count = 0;
        }
    }

    /// The prompt-prefix reminder for this turn, if any, advancing the state
    /// as [`build_reminder_spec`] states.
    pub fn build_reminder_for_prompt(&mut self) -> (r: Option<String>)
        requires
            can_build_reminder(old(self)@),
        ensures
            final(self)@ == build_reminder_spec(old(self)@).0,
            match r {
                Some(s) => build_reminder_spec(old(self)@).1 == Some(s@),
                None => build_reminder_spec(old(self)@).1 is None,
            },
    {
        if self.state == PiPlanState::Pending {
            let is_reentry = self.is_reentry();
            self.activate();
            self.record_reminder_injected();
            let text = if is_reentry {
                render_reentry(self.plan_file_path.as_str())
            } else {
                render_full(self.plan_file_path.as_str())
            };
            return Some(text);
        }
        if self.state == PiPlanState::Active {
            let use_full = self.should_use_full_reminder();
            self.record_reminder_injected();
            let text = if use_full {
                render_full(self.plan_file_path.as_str())
            } else {
                render_sparse()
            };
            return Some(text);
        }
        if self.pending_exit_reminder {
            self.clear_pending_exit_reminder();
            return Some(render_exit());
        }
        None
    }
}

// ─── Laws ────────────────────────────────────────────────────────────────────

/// Toggling plan mode on and straight off again before any prompt returns to
/// `Inactive` and owes no exit reminder.
pub proof fn law_pending_cancel_is_clean(m: PlanModel, turn_in_flight: bool)
    requires
        m.state == PiPlanState::Inactive,
    ensures
        user_exit_spec(enter_pending_spec(m).0, turn_in_flight).state == PiPlanState::Inactive,
        !user_exit_spec(enter_pending_spec(m).0, turn_in_flight).pending_exit_reminder,
{
}

/// The first prompt after toggling on activates plan mode with the full
/// reminder (or the re-entry reminder when plan mode was active before).
pub proof fn law_first_prompt_activates(m: PlanModel)
    requires
        m.state == PiPlanState::Pending,
    ensures
        build_reminder_spec(m).0.state == PiPlanState::Active,
        build_reminder_spec(m).0.was_previously_active,
        build_reminder_spec(m).1 == Some(
            if m.was_previously_active {
                reentry_reminder(m.plan_file_path)
            } else {
                full_reminder(m.plan_file_path)
            },
        ),
{
}

/// While active, consecutive reminders alternate between the full and the
/// sparse text, starting with the full one after activation is counted.
pub proof fn law_reminders_alternate(m: PlanModel)
    requires
        m.state == PiPlanState::Active,
        m.reminder_count < u32::MAX - 1,
    ensures
        build_reminder_spec(m).0.state == PiPlanState::Active,
        (build_reminder_spec(m).1 == Some(sparse_reminder())) != (build_reminder_spec(
            build_reminder_spec(m).0,
        ).1 == Some(sparse_reminder())),
{
    assert(full_reminder(m.plan_file_path) != sparse_reminder()) by {
        reveal_strlit("<system-reminder>\n");
        reveal_strlit(
            "Plan mode is still active. Do not make any edits or writes to the system except for the plan file.",
        );
        reveal_strlit(
            "Plan mode is active. Do not make any edits or writes to the system.\n\n## Plan File:\nWrite your plan to ",
        );
        let a = full_reminder(m.plan_file_path);
        let b = sparse_reminder();
        assert(a[31] == 'a');
        assert(b[31] == 's');
    }
}

/// Leaving plan mode without a turn in flight owes exactly one exit reminder:
/// the next prompt gets it and the one after gets none.
pub proof fn law_exit_reminder_is_one_shot(m: PlanModel)
    requires
        m.state == PiPlanState::Active,
    ensures
        user_exit_spec(m, false).state == PiPlanState::Inactive,
        build_reminder_spec(user_exit_spec(m, false)).1 == Some(exit_reminder()),
        build_reminder_spec(build_reminder_spec(user_exit_spec(m, false)).0).1 is None,
{
}

/// Leaving with a turn in flight defers the exit: the state is `ExitPending`
/// until the turn completes, then `Inactive` with the exit reminder owed.
pub proof fn law_deferred_exit(m: PlanModel)
    requires
        m.state == PiPlanState::Active,
    ensures
        user_exit_spec(m, true).state == PiPlanState::ExitPending,
        complete_deferred_exit_spec(user_exit_spec(m, true)).state == PiPlanState::Inactive,
        complete_deferred_exit_spec(user_exit_spec(m, true)).pending_exit_reminder,
{
}

/// Toggling on while an exit is deferred cancels it: back to `Active` with no
/// exit reminder owed.
pub proof fn law_reentry_cancels_deferred_exit(m: PlanModel)
    requires
        m.state == PiPlanState::ExitPending,
    ensures
        enter_pending_spec(m).1,
        enter_pending_spec(m).0.state == PiPlanState::Active,
        !enter_pending_spec(m).0.pending_exit_reminder,
{
}

/// Once plan mode has been active, every later toggle-on is a re-entry: no
/// transition forgets that plan mode was active.
pub proof fn law_previously_active_is_kept(m: PlanModel, flag: bool)
    requires
        m.was_previously_active,
    ensures
        enter_pending_spec(m).0.was_previously_active,
        activate_spec(m).0.was_previously_active,
        user_exit_spec(m, flag).was_previously_active,
        complete_deferred_exit_spec(m).was_previously_active,
        deactivate_approved_spec(m).0.was_previously_active,
        reset_after_compaction_spec(m).was_previously_active,
        build_reminder_spec(m).0.was_previously_active,
{
}

/// No transition changes the plan file path.
pub proof fn law_plan_file_is_fixed(m: PlanModel, flag: bool)
    ensures
        enter_pending_spec(m).0.plan_file_path == m.plan_file_path,
        activate_spec(m).0.plan_file_path == m.plan_file_path,
        user_exit_spec(m, flag).plan_file_path == m.plan_file_path,
        complete_deferred_exit_spec(m).plan_file_path == m.plan_file_path,
        deactivate_approved_spec(m).0.plan_file_path == m.plan_file_path,
        reset_after_compaction_spec(m).plan_file_path == m.plan_file_path,
        build_reminder_spec(m).0.plan_file_path == m.plan_file_path,
{
}

/// A snapshot of a settled state (`Inactive` or `Active`) restores to the
/// same state.
pub proof fn law_snapshot_round_trip(m: PlanModel)
    requires
        m.state == PiPlanState::Inactive || m.state == PiPlanState::Active,
    ensures
        restore(m.plan_file_path, snapshot_of(m)) == m,
{
}

/// Restoring never yields a transient state, and a deferred exit survives a
/// restart as an owed exit reminder.
pub proof fn law_restore_collapses_transient(path: Seq<char>, s: PiPlanSnapshot)
    ensures
        restore(path, s).state == PiPlanState::Inactive || restore(path, s).state
            == PiPlanState::Active,
        s.state == PiPlanState::ExitPending ==> restore(path, s).pending_exit_reminder,
        s.state == PiPlanState::Pending ==> restore(path, s).state == PiPlanState::Inactive,
{
}

/// Approving `exit_plan_mode` leaves plan mode and clears the outstanding
/// approval.
pub proof fn law_approval_deactivates(m: PlanModel)
    requires
        m.state == PiPlanState::Active,
    ensures
        deactivate_approved_spec(m).1,
        deactivate_approved_spec(m).0.state == PiPlanState::Inactive,
        !deactivate_approved_spec(m).0.awaiting_plan_approval,
        build_reminder_spec(deactivate_approved_spec(m).0).1 == Some(exit_reminder()),
        build_reminder_spec(build_reminder_spec(deactivate_approved_spec(m).0).0).1 is None,
{
}

/// One call of a tracker method, as the re-entry law counts them.
pub enum PlanOp {
    EnterPending,
    Activate,
    UserExit(bool),
    CompleteDeferredExit,
    DeactivateApproved,
    ResetAfterCompaction,
    BuildReminder,
    RecordReminder,
    ClearExitReminder,
    SetAwaiting(bool),
}

/// The state after `op`, and whether `op` activated plan mode (a successful
/// `activate`, including the one inside `build_reminder_for_prompt`).
pub open spec fn op_step(m: PlanModel, op: PlanOp) -> (PlanModel, bool) {
    match op {
        PlanOp::EnterPending => (enter_pending_spec(m).0, false),
        PlanOp::Activate => activate_spec(m),
        PlanOp::UserExit(f) => (user_exit_spec(m, f), false),
        PlanOp::CompleteDeferredExit => (complete_deferred_exit_spec(m), false),
        PlanOp::DeactivateApproved => (deactivate_approved_spec(m).0, false),
        PlanOp::ResetAfterCompaction => (reset_after_compaction_spec(m), false),
        PlanOp::BuildReminder => (build_reminder_spec(m).0, m.state == PiPlanState::Pending),
        PlanOp::RecordReminder => (
            PlanModel { reminder_count: (m.reminder_count + 1) as u32, ..m },
            false,
        ),
        PlanOp::ClearExitReminder => (PlanModel { pending_exit_reminder: false, ..m }, false),
        PlanOp::SetAwaiting(a) => (PlanModel { awaiting_plan_approval: a, ..m }, false),
    }
}

/// The state after running `ops` in order from `m`, and whether any of them
/// activated plan mode.
pub open spec fn run_ops(m: PlanModel, ops: Seq<PlanOp>) -> (PlanModel, bool)
    decreases ops.len(),
{
    if ops.len() == 0 {
        (m, false)
    } else {
        let prev = run_ops(m, ops.drop_last());
        let step = op_step(prev.0, ops.last());
        (step.0, prev.1 || step.1)
    }
}

/// Re-entry: starting from a tracker on which plan mode was never active
/// (as `new` and `with_plan_file` build it), after any sequence of calls
/// the tracker reports a re-entry (`is_reentry`: previously active and
/// `Pending`) exactly when it is `Pending` and some earlier call activated
/// plan mode.
pub proof fn law_reentry_iff_activated_before(m: PlanModel, ops: Seq<PlanOp>)
    requires
        !m.was_previously_active,
    ensures
        run_ops(m, ops).0.was_previously_active == run_ops(m, ops).1,
        (run_ops(m, ops).0.was_previously_active && run_ops(m, ops).0.state == PiPlanState::Pending)
            <==> (run_ops(m, ops).0.state == PiPlanState::Pending && run_ops(m, ops).1),
    decreases ops.len(),
{
    if ops.len() > 0 {
        law_reentry_iff_activated_before(m, ops.drop_last());
    }
}

} // verus!
