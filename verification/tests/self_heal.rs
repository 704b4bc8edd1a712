use pi_grok_adapter::self_heal::{HealAction, HealFailure, SelfHeal};

fn strings(items: &[&str]) -> Vec<String> {
    items.iter().map(|s| s.to_string()).collect()
}

/// Drive the machine, answering probes with `boots(args)`.
fn drive(pi_args: Vec<String>, boots: impl Fn(&[String]) -> bool) -> (HealAction, Vec<String>) {
    let mut heal = SelfHeal::new(pi_args);
    let mut log = Vec::new();
    loop {
        let action = heal.next_action();
        let args = match &action {
            HealAction::Launch(a) | HealAction::CheckWithoutExtensions(a) | HealAction::Probe(a) => a.clone(),
            HealAction::Relaunch { args, .. } => args.clone(),
            HealAction::Done(_) | HealAction::Fail(_) => return (action, log),
        };
        log.push(args.join(" "));
        heal.record(boots(&args));
    }
}

#[test]
fn healthy_start_needs_no_healing() {
    let (end, log) = drive(strings(&["--extension", "a.ts"]), |_| true);
    assert!(matches!(end, HealAction::Done(ref a) if *a == strings(&["--extension", "a.ts"])));
    assert_eq!(log.len(), 1);
}

#[test]
fn failure_without_extensions_gives_up() {
    let (end, _) = drive(strings(&["--model", "m"]), |_| false);
    assert!(matches!(end, HealAction::Fail(HealFailure::NoExtensions)));
}

#[test]
fn base_failure_is_not_an_extension_problem() {
    let (end, _) = drive(strings(&["--extension", "a.ts"]), |_| false);
    assert!(matches!(end, HealAction::Fail(HealFailure::NotAnExtensionProblem)));
}

#[test]
fn bisection_finds_the_bad_extension() {
    let args = strings(&["--x", "--extension", "a.ts", "--extension", "bad.ts", "--extension", "c.ts"]);
    let (end, log) = drive(args, |a| !a.iter().any(|s| s == "bad.ts"));
    assert!(matches!(end, HealAction::Done(ref a) if *a == strings(&["--x", "--extension", "a.ts", "--extension", "c.ts"])));
    assert_eq!(log[1], "--x");
    assert!(log.iter().any(|l| l == "--x --extension bad.ts"));
}

#[test]
fn combination_conflict_drops_all_extensions() {
    let args = strings(&["--extension", "a.ts", "--extension", "b.ts"]);
    let both = |a: &[String]| !(a.iter().any(|s| s == "a.ts") && a.iter().any(|s| s == "b.ts"));
    let (end, _) = drive(args, both);
    assert!(matches!(end, HealAction::Done(ref a) if a.is_empty()));
}
