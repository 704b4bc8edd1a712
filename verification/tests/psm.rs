use pi_grok_adapter::psm::{hit_summary, search_hit_indexes};
use pi_grok_adapter::psm::{build_fts_query_any, preview_messages};

#[test]
fn fts_query_or_joins_terms() {
    assert_eq!(build_fts_query_any("resume picker"), "resume OR picker");
}

#[test]
fn fts_terms_are_quoted_when_unsafe() {
    assert_eq!(build_fts_query_any("  a-b say\"hi\" héllo "), "a-b OR \"say\"\"hi\"\"\" OR héllo");
    assert_eq!(build_fts_query_any("x.y"), "\"x.y\"");
    assert_eq!(build_fts_query_any("   "), "");
}

#[test]
fn preview_drops_blank_messages() {
    let rows = vec![
        ("user".to_string(), "  hi  ".to_string()),
        ("assistant".to_string(), " \n ".to_string()),
        ("assistant".to_string(), "there".to_string()),
    ];
    let preview = preview_messages(rows);
    assert_eq!(preview.len(), 2);
    assert_eq!(preview[0].role, "user");
    assert_eq!(preview[0].content, "hi");
    assert_eq!(preview[1].content, "there");
}

#[test]
fn search_hits_keep_the_first_row_of_each_session() {
    let ids: Vec<String> = ["a", "b", "a", "c", "b", "d"].iter().map(|s| s.to_string()).collect();
    assert_eq!(search_hit_indexes(&ids, 10), vec![0, 1, 3, 5]);
    assert_eq!(search_hit_indexes(&ids, 2), vec![0, 1]);
    assert_eq!(search_hit_indexes(&ids, 0), vec![0]);
    assert_eq!(search_hit_indexes(&Vec::new(), 3), Vec::<usize>::new());
    assert_eq!(hit_summary("Name", Some("snip")), "Name");
    assert_eq!(hit_summary("", Some("snip")), "snip");
    assert_eq!(hit_summary("", None), "(no content)");
}
