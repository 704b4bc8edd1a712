use pi_grok_adapter::plan_mode::{plan_mode_edit_rejected, PiPlanSnapshot, PiPlanState, PiPlanTracker};

fn test_tracker() -> PiPlanTracker {
    PiPlanTracker::new("/tmp/test-pi-session".to_string())
}

#[test]
fn user_initiated_lifecycle() {
    let mut t = test_tracker();
    assert_eq!(t.state(), PiPlanState::Inactive);

    assert!(t.enter_pending());
    assert_eq!(t.state(), PiPlanState::Pending);

    let reminder = t.build_reminder_for_prompt();
    assert!(reminder.is_some());
    assert!(reminder.unwrap().contains("Plan mode is active"));
    assert_eq!(t.state(), PiPlanState::Active);

    let r2 = t.build_reminder_for_prompt();
    assert!(r2.is_some());
    assert!(r2.unwrap().contains("still active"));

    t.user_exit(false);
    assert_eq!(t.state(), PiPlanState::Inactive);
    assert!(t.has_pending_exit_reminder());

    let r3 = t.build_reminder_for_prompt();
    assert!(r3.is_some());
    assert!(r3.unwrap().contains("exited plan mode"));
    assert!(!t.has_pending_exit_reminder());
}

#[test]
fn user_exit_while_turn_in_flight() {
    let mut t = test_tracker();
    t.enter_pending();
    t.build_reminder_for_prompt();
    assert_eq!(t.state(), PiPlanState::Active);

    t.user_exit(true);
    assert_eq!(t.state(), PiPlanState::ExitPending);

    t.complete_deferred_exit();
    assert_eq!(t.state(), PiPlanState::Inactive);
    assert!(t.has_pending_exit_reminder());
}

#[test]
fn pending_cancel_is_clean() {
    let mut t = test_tracker();
    t.enter_pending();
    assert_eq!(t.state(), PiPlanState::Pending);

    t.user_exit(false);
    assert_eq!(t.state(), PiPlanState::Inactive);
    assert!(!t.has_pending_exit_reminder());
}

#[test]
fn reentry_detected() {
    let mut t = test_tracker();
    t.enter_pending();
    t.build_reminder_for_prompt();
    t.user_exit(false);
    t.build_reminder_for_prompt();

    assert!(t.enter_pending());
    assert!(t.is_reentry());
    let reminder = t.build_reminder_for_prompt();
    assert!(reminder.unwrap().contains("Returning to Plan Mode"));
}

#[test]
fn exit_pending_reentry_cancels_deferred_exit() {
    let mut t = test_tracker();
    t.enter_pending();
    t.build_reminder_for_prompt();
    t.user_exit(true);
    assert_eq!(t.state(), PiPlanState::ExitPending);

    assert!(t.enter_pending());
    assert_eq!(t.state(), PiPlanState::Active);
    assert!(!t.has_pending_exit_reminder());
}

#[test]
fn reminder_alternation() {
    let mut t = test_tracker();
    t.enter_pending();

    let r1 = t.build_reminder_for_prompt();
    assert!(r1.unwrap().contains("Plan mode is active"));

    let r2 = t.build_reminder_for_prompt();
    assert!(r2.unwrap().contains("still active"));

    let r3 = t.build_reminder_for_prompt();
    assert!(r3.unwrap().contains("Plan mode is active"));

    let r4 = t.build_reminder_for_prompt();
    assert!(r4.unwrap().contains("still active"));
}

#[test]
fn plan_file_path_in_session_dir() {
    let t = test_tracker();
    assert_eq!(t.plan_file_path(), "/tmp/test-pi-session/plan.md");
}

#[test]
fn should_auto_approve_plan_file_edit() {
    let mut t = test_tracker();
    t.enter_pending();
    t.build_reminder_for_prompt();

    assert!(t.should_auto_approve_edit("/tmp/test-pi-session/plan.md"));
    assert!(!t.should_auto_approve_edit("/tmp/test-pi-session/other.md"));
    assert!(!t.should_auto_approve_edit("/tmp/other/plan.md"));
}

#[test]
fn snapshot_round_trip() {
    let mut t = test_tracker();
    t.enter_pending();
    t.build_reminder_for_prompt();

    let snapshot = t.snapshot();
    assert_eq!(snapshot.state, PiPlanState::Active);
    assert!(snapshot.was_previously_active);

    let restored = PiPlanTracker::from_snapshot("/tmp/test-pi-session".to_string(), snapshot);
    assert_eq!(restored.state(), PiPlanState::Active);
    assert!(restored.is_active());
}

#[test]
fn snapshot_collapses_transient_states() {
    let snapshot = PiPlanSnapshot {
        state: PiPlanState::Pending,
        was_previously_active: false,
        reminder_count: 0,
        pending_exit_reminder: false,
        awaiting_plan_approval: false,
    };
    let restored = PiPlanTracker::from_snapshot("/tmp/s".to_string(), snapshot);
    assert_eq!(restored.state(), PiPlanState::Inactive);

    let snapshot = PiPlanSnapshot {
        state: PiPlanState::ExitPending,
        was_previously_active: true,
        reminder_count: 2,
        pending_exit_reminder: false,
        awaiting_plan_approval: false,
    };
    let restored = PiPlanTracker::from_snapshot("/tmp/s".to_string(), snapshot);
    assert_eq!(restored.state(), PiPlanState::Inactive);
    assert!(restored.has_pending_exit_reminder());
}

#[test]
fn deactivate_approved() {
    let mut t = test_tracker();
    t.enter_pending();
    t.build_reminder_for_prompt();
    t.set_awaiting_plan_approval(true);

    assert!(t.deactivate_approved());
    assert_eq!(t.state(), PiPlanState::Inactive);
    assert!(!t.is_awaiting_plan_approval());
}

#[test]
fn edit_rejected_message() {
    let msg = plan_mode_edit_rejected("/home/user/.pi/sessions/abc/plan.md");
    assert!(msg.contains("Rejected"));
    assert!(msg.contains("plan.md"));
}

#[test]
fn plan_file_override_and_compaction_reset() {
    let mut t = PiPlanTracker::with_plan_file("/data/s.plan.md".to_string());
    assert_eq!(t.plan_file_path(), "/data/s.plan.md");
    t.enter_pending();
    t.build_reminder_for_prompt();
    assert!(!t.should_use_full_reminder());
    t.reset_after_compaction();
    assert!(t.should_use_full_reminder());
}

#[test]
fn approved_exit_owes_one_exit_reminder() {
    let mut t = test_tracker();
    t.enter_pending();
    t.build_reminder_for_prompt();
    assert!(!t.has_pending_exit_reminder());
    assert!(t.deactivate_approved());
    assert!(t.has_pending_exit_reminder());
    assert_eq!(
        t.build_reminder_for_prompt().as_deref(),
        Some("<system-reminder>\nYou have exited plan mode. You can now make edits, run tools, and take actions.\n</system-reminder>")
    );
    assert!(!t.has_pending_exit_reminder());
    assert_eq!(t.build_reminder_for_prompt(), None);
}

#[test]
fn reentry_only_after_an_activation() {
    let mut t = test_tracker();
    assert!(t.enter_pending());
    assert!(!t.is_reentry());
    t.user_exit(false);
    assert!(t.enter_pending());
    assert!(!t.is_reentry());
    assert!(t.activate());
    t.user_exit(false);
    assert!(t.enter_pending());
    assert!(t.is_reentry());
}
