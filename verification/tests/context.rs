use pi_grok_adapter::context::{
    context_file_label, estimate_tokens_text, scale_token_parts, session_context,
    usage_pct, ContextBreakdownRaw, ContextFileRaw, MessageTokenEstimate,
};

#[test]
fn scale_token_parts_preserves_used_total() {
    assert_eq!(scale_token_parts(&[75, 25], 1_000), vec![750, 250]);
    let scaled = scale_token_parts(&[1, 1, 1], 10);
    assert_eq!(scaled.iter().sum::<u64>(), 10);
}

#[test]
fn scale_token_parts_edge_cases() {
    assert_eq!(scale_token_parts(&[1, 1, 1], 10), vec![3, 3, 4]);
    assert_eq!(scale_token_parts(&[0, 0], 10), vec![0, 0]);
    assert_eq!(scale_token_parts(&[5, 5], 0), vec![0, 0]);
    // Half-way values round up, and the largest bucket absorbs the drift.
    assert_eq!(scale_token_parts(&[1, 1], 3), vec![2, 1]);
    // An excess the largest bucket cannot absorb is taken from the others,
    // from the last one backwards, so the parts still add up to `used`.
    assert_eq!(scale_token_parts(&[1, 1, 1, 1], 2), vec![1, 1, 0, 0]);
    assert_eq!(scale_token_parts(&[1, 1, 1, 1, 1], 2), vec![0, 0, 0, 0, 2]);
}

#[test]
fn token_estimates_round_up_bytes() {
    assert_eq!(estimate_tokens_text(""), 0);
    assert_eq!(estimate_tokens_text("abcd"), 1);
    assert_eq!(estimate_tokens_text("abcde"), 2);
    assert_eq!(estimate_tokens_text("é"), 1);
}

#[test]
fn context_file_labels() {
    assert_eq!(context_file_label("/repo/AGENTS.md"), "AGENTS.md");
    assert_eq!(context_file_label(""), "Project context");
    assert_eq!(context_file_label("/"), "/");
}

#[test]
fn usage_percentage_prefers_pi() {
    assert_eq!(usage_pct(Some(7), 1, 2), 7);
    assert_eq!(usage_pct(None, 10_000, 200_000), 5);
    assert_eq!(usage_pct(None, 5, 0), 0);
    assert_eq!(usage_pct(None, 300, 200), 100);
}

#[test]
fn session_context_scales_breakdown() {
    let breakdown = ContextBreakdownRaw {
        system_prompt_tokens_raw: 4_000,
        tool_definitions_count: 5,
        tool_definitions_tokens_raw: 1_000,
        append_tokens_raw: 100,
        context_files: vec![ContextFileRaw { path: "/repo/AGENTS.md".into(), tokens_raw: 400 }],
        skills_count: 2,
        skills_tokens_raw: 200,
    };
    let estimate = MessageTokenEstimate { messages: 4, tool_payload: 0, compaction_count: 0 };
    let ctx = session_context(10_000, 100_000, estimate, &breakdown, Some(10));
    assert!(ctx.system_prompt_tokens > 0);
    assert!(ctx.tool_definitions_tokens > 0);
    assert!(ctx.message_tokens > 0);
    assert!(ctx.system_prompt_tokens + ctx.message_tokens <= 10_000);
    assert_eq!(ctx.tool_definitions_count, 5);
    assert_eq!(ctx.free_tokens, 90_000);
    assert_eq!(ctx.usage_pct, 10);
    let labels: Vec<&str> = ctx.usage_categories.iter().map(|r| r.label.as_str()).collect();
    assert_eq!(labels, vec!["Append system prompt", "AGENTS.md", "Skills"]);
    assert_eq!(ctx.usage_categories[2].detail.as_deref(), Some("2 skills"));
    assert_eq!(ctx.usage_categories[1].detail.as_deref(), Some("/repo/AGENTS.md"));
}

#[test]
fn session_context_without_estimates_fills_messages() {
    let empty = ContextBreakdownRaw::empty();
    let estimate = MessageTokenEstimate { messages: 0, tool_payload: 0, compaction_count: 0 };
    let ctx = session_context(42_000, 100_000, estimate, &empty, None);
    assert_eq!(ctx.message_tokens, 42_000);
    assert_eq!(ctx.free_tokens, 58_000);
    assert_eq!(ctx.usage_pct, 42);
    assert!(ctx.usage_categories.is_empty());
}
