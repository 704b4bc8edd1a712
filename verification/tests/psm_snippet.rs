use pi_grok_adapter::psm::{snippet_around, snippet_source};

#[test]
fn blank_content_has_no_snippet() {
    assert_eq!(snippet_around(" \n \n", Some("x")), Some(None));
    assert_eq!(snippet_source("a\nb \n"), "a b");
}

#[test]
fn head_of_content_without_a_match() {
    let long = "x".repeat(90);
    assert_eq!(snippet_around(&long, None), Some(Some(format!("{}...", "x".repeat(80)))));
    assert_eq!(snippet_around("short\ntext", Some("zzz")), Some(Some("short text".to_string())));
    assert_eq!(snippet_around(&long, Some("")), Some(Some("x".repeat(80))));
}

#[test]
fn window_around_the_first_match() {
    let content = format!("{}NEEDLE{}", "a".repeat(100), "b".repeat(100));
    let snip = snippet_around(&content, Some("needle")).unwrap().unwrap();
    assert_eq!(snip, format!("...{}NEEDLE{}...", "a".repeat(40), "b".repeat(40)));
    let near = format!("ab NEEDLE cd");
    assert_eq!(snippet_around(&near, Some("needle")), Some(Some("ab NEEDLE cd".to_string())));
}

#[test]
fn window_cuts_back_to_character_boundaries() {
    let content = format!("{}{}hit", "é".repeat(30), "z");
    let snip = snippet_around(&content, Some("hit")).unwrap().unwrap();
    assert!(snip.starts_with("..."));
    assert!(snip.ends_with("zhit"));
}
