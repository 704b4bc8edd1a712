use pi_grok_adapter::pi_version::{
    both_install_commands, classify_pi_host, install_command_for_host, looks_like_js_cli,
    meets_minimum, min_pi_version, parse_pi_version, PiHostCheck, MIN_PI_VERSION,
};

#[test]
fn parses_plain_semver() {
    assert_eq!(parse_pi_version("0.80.10").unwrap().text(), "0.80.10");
}

#[test]
fn parses_prefixed_output() {
    assert_eq!(parse_pi_version("pi 0.80.10\n").unwrap().text(), "0.80.10");
    assert_eq!(
        parse_pi_version("@earendil-works/pi-coding-agent/0.80.10").unwrap().text(),
        "0.80.10"
    );
}

#[test]
fn min_version_constant_is_valid() {
    assert!(semver::Version::parse(MIN_PI_VERSION).is_ok());
    assert_eq!(min_pi_version().text(), MIN_PI_VERSION);
}

#[test]
fn too_old_detected() {
    let v = parse_pi_version("0.79.0").unwrap();
    assert!(!meets_minimum(&v));
    assert!(meets_minimum(&parse_pi_version("0.80.10").unwrap()));
    assert!(!meets_minimum(&parse_pi_version("0.80.10-beta.1").unwrap()));
    assert!(meets_minimum(&parse_pi_version("1.0.0").unwrap()));
}

#[test]
fn install_hint_is_platform_specific() {
    let hint = install_command_for_host(true);
    assert!(hint.contains("powershell"));
    let hint = install_command_for_host(false);
    assert!(hint.contains("curl") && hint.contains("pi.dev/install.sh"));
    assert_eq!(both_install_commands(), (install_command_for_host(false), install_command_for_host(true)));
}

#[test]
fn version_tokens_tolerate_noise() {
    assert_eq!(parse_pi_version("v1.2.3, built").unwrap().text(), "1.2.3");
    assert_eq!(parse_pi_version("pi 1.2.3-rc.1+abc").unwrap().text(), "1.2.3-rc.1+abc");
    assert_eq!(parse_pi_version("2.0.0rc").unwrap().text(), "2.0.0");
    assert!(parse_pi_version("no version here").is_none());
}

#[test]
fn host_checks_are_classified() {
    assert!(matches!(classify_pi_host("pi", Ok("pi 0.81.0".into())), PiHostCheck::Compatible { .. }));
    assert!(matches!(classify_pi_host("pi", Ok("0.1.0".into())), PiHostCheck::TooOld { .. }));
    match classify_pi_host("pi", Ok("  garbage \n".into())) {
        PiHostCheck::Unparseable { raw, .. } => assert_eq!(raw, "garbage"),
        other => panic!("{other:?}"),
    }
    assert!(matches!(classify_pi_host("pi", Err("spawn failed".into())), PiHostCheck::Missing { .. }));
}

#[test]
fn js_entry_points_run_through_node() {
    assert!(looks_like_js_cli("/opt/pi/cli.js"));
    assert!(looks_like_js_cli("cli.mjs"));
    assert!(!looks_like_js_cli("/usr/bin/pi"));
    assert!(!looks_like_js_cli(".js"));
}
