use pi_grok_adapter::migrate_home::{migrate_precheck, MigrateRefusal};
use pi_grok_adapter::migrate_home::{
    auto_migrate_decision, auto_skip_entry, entry_list, marker_body, migrate_action, status,
    status_action, Action, AutoMigrate, EntryResult, MigrateReport,
};

fn entry(name: &str, action: Action) -> EntryResult {
    EntryResult { name: name.to_string(), action, detail: String::new() }
}

#[test]
fn allow_list_has_auth_only_on_request() {
    let base = entry_list(false);
    assert_eq!(base.len(), 8);
    assert_eq!(base[0], "pager.toml");
    assert_eq!(base[7], "projects");
    assert!(!base.iter().any(|n| n == "auth.json"));
    let with_auth = entry_list(true);
    assert_eq!(with_auth.len(), 9);
    assert_eq!(with_auth[8], "auth.json");
}

#[test]
fn migrate_actions_follow_probes_and_flags() {
    assert_eq!(migrate_action(false, true, true, false), Action::SkippedMissing);
    assert_eq!(migrate_action(true, true, false, false), Action::SkippedExists);
    assert_eq!(migrate_action(true, true, false, true), Action::SkippedExists);
    assert_eq!(migrate_action(true, false, false, true), Action::WouldCopy);
    assert_eq!(migrate_action(true, true, true, true), Action::WouldCopy);
    assert_eq!(migrate_action(true, true, true, false), Action::Overwritten);
    assert_eq!(migrate_action(true, false, false, false), Action::Copied);
}

#[test]
fn status_matches_dry_run_without_force() {
    for s in [false, true] {
        for d in [false, true] {
            assert_eq!(status_action(s, d), migrate_action(s, d, false, true));
        }
    }
}

#[test]
fn status_report_and_human_format() {
    let mut probes = vec![(false, false); 8];
    probes[0] = (true, false);
    probes[1] = (true, true);
    let report = status("/h/.grok", "/h/.grok-pi", false, &probes);
    assert!(report.dry_run);
    assert!(!report.force);
    assert_eq!(report.entries.len(), 8);
    assert_eq!(report.entries[0].action, Action::WouldCopy);
    assert_eq!(report.entries[1].action, Action::SkippedExists);
    assert_eq!(report.entries[2].action, Action::SkippedMissing);
    assert_eq!(report.copied_count(), 1);
    assert_eq!(report.skipped_exists_count(), 1);
    let text = report.format_human("~/.grok", "~/.grok-pi");
    assert!(text.starts_with("migrate-home: ~/.grok → ~/.grok-pi\nmode: dry-run (no files written)\n"));
    assert!(text.contains("  [would-copy] pager.toml\n"));
    assert!(text.contains("  [skip-exists] config.toml\n"));
    assert!(text.contains("  [skip-missing] projects\n"));
    assert!(text.ends_with("summary: 1 transferable, 1 already present\n"));
}

#[test]
fn human_format_modes_and_counts() {
    let report = MigrateReport {
        from: "/a".to_string(),
        to: "/b".to_string(),
        dry_run: false,
        force: true,
        entries: vec![
            entry("x", Action::Copied),
            entry("y", Action::Overwritten),
            entry("z", Action::SkippedExists),
        ],
    };
    assert_eq!(report.copied_count(), 2);
    assert_eq!(
        report.format_human("/a", "/b"),
        "migrate-home: /a → /b\nmode: force (overwrite existing)\n  [copied] x\n  [overwritten] y\n  [skip-exists] z\nsummary: 2 transferable, 1 already present\n"
    );
    let safe = MigrateReport { force: false, entries: vec![], ..report };
    assert_eq!(
        safe.format_human("/a", "/b"),
        "migrate-home: /a → /b\nmode: safe (skip existing)\nsummary: 0 transferable, 0 already present\n"
    );
}

#[test]
fn auto_migrate_runs_once_on_a_fresh_home() {
    let none = vec![false; 8];
    let mut some = vec![false; 8];
    some[3] = true;
    assert_eq!(auto_migrate_decision(false, false, false, &none, &some), AutoMigrate::Nothing);
    assert_eq!(auto_migrate_decision(true, true, false, &none, &some), AutoMigrate::Nothing);
    assert_eq!(auto_migrate_decision(true, false, true, &none, &some), AutoMigrate::Nothing);
    assert_eq!(auto_migrate_decision(true, false, false, &some, &some), AutoMigrate::MarkOnly);
    assert_eq!(auto_migrate_decision(true, false, false, &none, &none), AutoMigrate::Nothing);
    assert_eq!(auto_migrate_decision(true, false, false, &none, &some), AutoMigrate::Run);
}

#[test]
fn marker_records_each_entry() {
    let entries = vec![entry("pager.toml", Action::Copied), auto_skip_entry()];
    assert_eq!(
        marker_body(42, "/h/.grok", "/h/.grok-pi", &entries),
        "migrated_at_unix=42\nfrom=/h/.grok\nto=/h/.grok-pi\nCopied\tpager.toml\t\nSkippedExists\t(auto-skip)\tdestination already has grok-pi state\n"
    );
}

#[test]
fn refusals_come_before_any_copy() {
    let missing = migrate_precheck(false, false, "~/.grok").unwrap();
    assert!(matches!(&missing, MigrateRefusal::LegacyHomeMissing(f) if f == "~/.grok"));
    assert_eq!(missing.message(), "legacy home not found: ~/.grok (nothing to migrate)");
    let same = migrate_precheck(true, true, "/h").unwrap();
    assert_eq!(same.message(), "source and destination are the same path; refusing to migrate");
    assert!(migrate_precheck(true, false, "/h").is_none());
}
