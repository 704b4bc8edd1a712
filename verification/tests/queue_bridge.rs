use pi_grok_adapter::queue_bridge::{QueueLane, QueueMirror};

#[test]
fn set_running_pins_primary_prompt_id() {
    let mut mirror = QueueMirror::new();
    mirror.set_running("primary-1".to_string());
    let snap = mirror.snapshot();
    assert_eq!(snap.running_prompt_id.as_deref(), Some("primary-1"));
    mirror.clear_running();
    assert!(mirror.snapshot().running_prompt_id.is_none());
}

#[test]
fn prefers_reserved_client_prompt_id() {
    let mut mirror = QueueMirror::new();
    mirror.reserve("client-1".into(), "hello".into(), QueueLane::FollowUp);
    let snap = mirror.apply_queue_update(&[], &["hello".into()]);
    assert_eq!(snap.entries.len(), 1);
    assert_eq!(snap.entries[0].id, "client-1");
    assert_eq!(snap.entries[0].text, "hello");
    assert!(snap.running_prompt_id.is_none());
}

#[test]
fn dequeues_delivered_item_and_sets_running_id() {
    let mut mirror = QueueMirror::new();
    mirror.reserve("a".into(), "one".into(), QueueLane::FollowUp);
    mirror.reserve("b".into(), "two".into(), QueueLane::FollowUp);
    let first = mirror.apply_queue_update(&[], &["one".into(), "two".into()]);
    assert_eq!(first.follow_up_count, 2);

    let second = mirror.apply_queue_update(&[], &["two".into()]);
    assert_eq!(second.entries.len(), 1);
    assert_eq!(second.entries[0].id, "b");
    assert_eq!(second.running_prompt_id.as_deref(), Some("a"));

    let third = mirror.apply_queue_update(&[], &[]);
    assert!(third.entries.is_empty());
    assert_eq!(third.running_prompt_id.as_deref(), Some("b"));
}

#[test]
fn steering_rows_precede_follow_up_rows() {
    let mut mirror = QueueMirror::new();
    let snap = mirror.apply_queue_update(&["steer-me".into()], &["later".into()]);
    assert_eq!(snap.entries[0].text, "steer-me");
    assert_eq!(snap.entries[1].text, "later");
    assert_eq!(snap.steering_count, 1);
    assert_eq!(snap.follow_up_count, 1);
}

#[test]
fn stable_ids_survive_reorder_within_lane() {
    let mut mirror = QueueMirror::new();
    mirror.apply_queue_update(&[], &["a".into(), "b".into()]);
    let before = mirror.snapshot();
    let id_a = before.entries[0].id.clone();
    let id_b = before.entries[1].id.clone();

    let after = mirror.apply_queue_update(&[], &["a".into(), "b".into()]);
    assert_eq!(after.entries[0].id, id_a);
    assert_eq!(after.entries[1].id, id_b);
}

#[test]
fn duplicate_texts_match_fifo() {
    let mut mirror = QueueMirror::new();
    mirror.reserve("first".into(), "same".into(), QueueLane::Steering);
    mirror.reserve("second".into(), "same".into(), QueueLane::Steering);
    let snap = mirror.apply_queue_update(&["same".into(), "same".into()], &[]);
    assert_eq!(snap.entries[0].id, "first");
    assert_eq!(snap.entries[1].id, "second");
}

#[test]
fn clear_empties_all_state() {
    let mut mirror = QueueMirror::new();
    mirror.reserve("a".into(), "one".into(), QueueLane::FollowUp);
    mirror.apply_queue_update(&["steer".into()], &["one".into(), "two".into()]);
    assert!(!mirror.snapshot().entries.is_empty());

    let snap = mirror.clear();
    assert!(snap.entries.is_empty());
    assert!(snap.running_prompt_id.is_none());
    assert_eq!(snap.steering_count, 0);
    assert_eq!(snap.follow_up_count, 0);

    let after = mirror.apply_queue_update(&[], &["new".into()]);
    assert_eq!(after.entries.len(), 1);
    assert_eq!(after.entries[0].text, "new");
}

#[test]
fn minted_ids_count_up_and_rows_carry_positions() {
    let mut mirror = QueueMirror::new();
    let snap = mirror.apply_queue_update(&["x".into()], &["y".into(), "z".into()]);
    assert_eq!(snap.entries[0].id, "pi-queue-1");
    assert_eq!(snap.entries[1].id, "pi-queue-2");
    assert_eq!(snap.entries[2].id, "pi-queue-3");
    assert_eq!(snap.entries[2].position, 2);
    assert_eq!(snap.entries[0].version, 0);
    assert_eq!(mirror.text_for_id("pi-queue-2"), Some("y"));
    assert_eq!(mirror.text_for_id("missing"), None);
}

#[test]
fn latest_reservation_for_an_id_wins() {
    let mut mirror = QueueMirror::new();
    mirror.reserve("c".into(), "old".into(), QueueLane::FollowUp);
    mirror.reserve("c".into(), "new".into(), QueueLane::FollowUp);
    mirror.reserve("   ".into(), "ignored".into(), QueueLane::FollowUp);
    let snap = mirror.apply_queue_update(&[], &["old".into(), "new".into()]);
    assert_eq!(snap.entries[0].id, "pi-queue-1");
    assert_eq!(snap.entries[1].id, "c");
}
