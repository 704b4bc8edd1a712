use pi_grok_adapter::subagent_bridge::{BridgeSequences, PendingSubagentBridge};

#[test]
fn pending_subagent_bridge_defers_only_the_target_session_replay() {
    let mut bridge: PendingSubagentBridge<&str> = PendingSubagentBridge::new();
    bridge.begin("target").unwrap();
    assert!(bridge.begin("other").is_err());
    assert!(!bridge.defer_if_targeted(Some("current"), "current-event"));
    assert!(bridge.defer_if_targeted(Some("target"), "target-event"));
    assert!(!bridge.defer_if_targeted(None, "plain-event"));
    let err = bridge.commit_if_target("other").unwrap_err();
    assert_eq!(
        err.message(),
        "Pi session transition to target is still pending while other loads"
    );
    assert_eq!(bridge.commit_if_target("target").unwrap(), vec!["target-event"]);
    assert!(!bridge.defer_if_targeted(Some("target"), "late"));
    assert!(bridge.commit_if_target("target").unwrap().is_empty());
}

#[test]
fn pending_subagent_bridge_discards_replay_when_transition_is_cancelled() {
    let mut bridge: PendingSubagentBridge<u32> = PendingSubagentBridge::new();
    bridge.begin("target").unwrap();
    assert!(bridge.defer_if_targeted(Some("target"), 1));
    bridge.abandon("other");
    assert!(bridge.defer_if_targeted(Some("target"), 2));
    bridge.abandon("target");
    assert!(bridge.commit_if_target("target").unwrap().is_empty());
    assert!(bridge.begin("next").is_ok());
}

#[test]
fn bridge_sequences_reject_stale_live_events() {
    let mut seqs = BridgeSequences::new();
    assert!(seqs.accept("child", 3, false));
    assert!(!seqs.accept("child", 3, false));
    assert!(!seqs.accept("child", 2, false));
    assert!(seqs.accept("child", 2, true));
    assert!(!seqs.accept("child", 3, false));
    assert!(seqs.accept("child", 4, false));
    assert!(seqs.accept("other", 1, false));
}
