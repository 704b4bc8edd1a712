use pi_grok_adapter::crash_report::{report_allowed, report_body, report_endpoint, report_identity};
use pi_grok_adapter::json::to_compact_string;

#[test]
fn only_n_declines_the_report() {
    assert!(!report_allowed(Some('n')));
    assert!(!report_allowed(Some('N')));
    assert!(report_allowed(Some('y')));
    assert!(report_allowed(Some(' ')));
    assert!(report_allowed(None));
}

#[test]
fn report_identity_endpoint_and_body() {
    assert_eq!(report_identity("anything", "combo"), ("combo".to_string(), "combo".to_string()));
    let (name, pkg) = report_identity("/home/u/.pi/node_modules/@scope/tool/index.ts", "crash");
    assert_eq!((name.as_str(), pkg.as_str()), ("tool", "@scope/tool"));
    assert_eq!(report_endpoint("https://x.dev//"), "https://x.dev/v1/report");
    assert_eq!(report_endpoint("https://x.dev"), "https://x.dev/v1/report");
    assert_eq!(
        to_compact_string(&report_body("tool", "@scope/tool", "crash")),
        r#"{"ext_name":"tool","package_dir":"@scope/tool","kind":"crash","client":"grok-pi"}"#
    );
}
