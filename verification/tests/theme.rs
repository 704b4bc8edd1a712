use pi_grok_adapter::theme::{
    hex_slices_on_char_boundaries,
    hex_to_color, is_pi_theme_id, resolve_tokens, parse_pi_theme_id, resolve_color, theme_id, validate_name,
    BuiltinPalettes, ColorError, ColorValue, LoadError, MapError, PaletteLookup, PiColor, ThemeRegistry,
};

fn vars(pairs: &[(&str, ColorValue)]) -> Vec<(String, ColorValue)> {
    pairs.iter().map(|(k, v)| (k.to_string(), v.clone())).collect()
}

fn builtins() -> BuiltinPalettes<bool> {
    BuiltinPalettes { dark: true, light: false, transparent: true, transparent_light: false }
}

#[test]
fn rejects_slash_in_name() {
    assert!(matches!(validate_name("a/b"), Err(LoadError::InvalidName(_))));
}

#[test]
fn accepts_plain_name() {
    assert!(validate_name("custom-test").is_ok());
    assert!(matches!(validate_name(""), Err(LoadError::InvalidName(_))));
    assert!(validate_name("a\\b").is_ok());
}

#[test]
fn parse_id() {
    assert_eq!(parse_pi_theme_id("pi:dark").as_deref(), Some("dark"));
    assert_eq!(parse_pi_theme_id("pi:").as_deref(), None);
    assert_eq!(parse_pi_theme_id("dark").as_deref(), None);
}

#[test]
fn theme_id_round_trips_through_parse() {
    let id = theme_id("custom-test");
    assert_eq!(id, "pi:custom-test");
    assert_eq!(parse_pi_theme_id(&id).as_deref(), Some("custom-test"));
    assert!(is_pi_theme_id("  pi:dark  "));
    assert!(!is_pi_theme_id("dark"));
}

#[test]
fn hex_parses() {
    assert_eq!(hex_to_color("#00d7ff").unwrap(), PiColor::Rgb(0, 215, 255));
    assert_eq!(hex_to_color("#AbCdEf").unwrap(), PiColor::Rgb(0xab, 0xcd, 0xef));
}

#[test]
fn hex_rejects_malformed_values() {
    assert!(matches!(hex_to_color("#12345"), Err(ColorError::InvalidHex(s)) if s == "#12345"));
    assert!(matches!(hex_to_color("#gg0000"), Err(ColorError::InvalidHex(_))));
    assert_eq!(hex_to_color("ff0000").unwrap(), PiColor::Rgb(255, 0, 0));
}

#[test]
fn empty_is_reset() {
    let c = resolve_color(&ColorValue::Text(String::new()), &Vec::new()).unwrap();
    assert_eq!(c, PiColor::Reset);
}

#[test]
fn index_and_var_chain() {
    let vars = vars(&[
        ("primary", ColorValue::Text("#ff0000".into())),
        ("alias", ColorValue::Text("primary".into())),
    ]);
    let c = resolve_color(&ColorValue::Text("alias".into()), &vars).unwrap();
    assert_eq!(c, PiColor::Rgb(255, 0, 0));
    let i = resolve_color(&ColorValue::Index(42), &vars).unwrap();
    assert_eq!(i, PiColor::Indexed(42));
}

#[test]
fn circular_var_errors() {
    let vars = vars(&[
        ("a", ColorValue::Text("b".into())),
        ("b", ColorValue::Text("a".into())),
    ]);
    let err = resolve_color(&ColorValue::Text("a".into()), &vars).unwrap_err();
    assert!(matches!(err, ColorError::CircularVar(_)));
}

#[test]
fn unknown_var_and_large_index_error() {
    let err = resolve_color(&ColorValue::Text("missing".into()), &Vec::new()).unwrap_err();
    assert!(matches!(err, ColorError::UnknownVar(ref v) if v == "missing"));
    assert_eq!(err.message(), "unknown theme variable: missing");
    let err = resolve_color(&ColorValue::Index(256), &Vec::new()).unwrap_err();
    assert!(matches!(err, ColorError::InvalidIndex(256)));
    assert_eq!(err.message(), "color index out of range 0-255: 256");
}

#[test]
fn builtins_registered() {
    let mut reg: ThemeRegistry<bool> = ThemeRegistry::new(builtins());
    reg.reset_registry();
    reg.ensure_builtins();
    let list = reg.list_themes();
    let names: Vec<_> = list.iter().map(|t| t.name.as_str()).collect();
    assert!(names.contains(&"dark"));
    assert!(names.contains(&"light"));
    assert!(names.contains(&"transparent"));
    assert!(names.contains(&"transparent-light"));
    match reg.load_palette("pi:dark") {
        PaletteLookup::Cached(id, is_dark) => {
            assert_eq!(id, "pi:dark");
            assert!(is_dark);
        }
        _ => panic!("dark theme not cached"),
    }
}

#[test]
fn list_is_sorted_by_name() {
    let mut reg: ThemeRegistry<bool> = ThemeRegistry::new(builtins());
    reg.ensure_builtins();
    let names: Vec<String> = reg.list_themes().into_iter().map(|t| t.name).collect();
    assert_eq!(names, vec!["dark", "light", "transparent", "transparent-light"]);
}

#[test]
fn discover_custom_file() {
    let mut reg: ThemeRegistry<bool> = ThemeRegistry::new(builtins());
    reg.reset_for_test();
    let files = vec![(
        "/p/.pi/themes/custom-test.json".to_string(),
        Ok(("custom-test".to_string(), Ok(true))),
    )];
    let report = reg.init_discovery(files);
    assert!(report.errors.is_empty(), "{:?}", report.errors);
    assert_eq!(report.loaded, 5);
    let list = reg.list_themes();
    assert!(list.iter().any(|t| t.name == "custom-test"));
    assert!(matches!(reg.load_palette("pi:custom-test"), PaletteLookup::Cached(_, true)));
}

#[test]
fn first_registration_wins_on_discovery() {
    let mut reg: ThemeRegistry<bool> = ThemeRegistry::new(builtins());
    let files = vec![
        ("/a/dark.json".to_string(), Ok(("dark".to_string(), Ok(false)))),
        ("/a/bad.json".to_string(), Err("invalid JSON".to_string())),
        ("/a/odd.json".to_string(), Ok(("odd".to_string(), Err("bad color".to_string())))),
    ];
    let report = reg.init_discovery(files);
    assert_eq!(report.skipped, 1);
    assert_eq!(report.errors, vec!["/a/bad.json: invalid JSON", "/a/odd.json: bad color"]);
    assert_eq!(report.loaded, 4);
    assert!(matches!(reg.load_palette("pi:dark"), PaletteLookup::Cached(_, true)));
    assert!(matches!(reg.load_palette("pi:odd"), PaletteLookup::Failed(LoadError::InvalidName(m)) if m == "unknown Pi theme: pi:odd"));
}

#[test]
fn rediscover_picks_up_new_theme_files() {
    let mut reg: ThemeRegistry<bool> = ThemeRegistry::new(builtins());
    reg.reset_registry();
    let first = reg.init_discovery(Vec::new());
    assert!(first.errors.is_empty(), "{:?}", first.errors);
    assert!(!reg.list_themes().iter().any(|t| t.name == "reload-new"));
    let files = vec![("/p/reload-new.json".to_string(), Ok(("reload-new".to_string(), true)))];
    let report = reg.rediscover(files);
    assert!(report.errors.is_empty(), "{:?}", report.errors);
    assert!(reg.list_themes().iter().any(|t| t.name == "reload-new"));
    assert!(matches!(reg.load_palette("pi:reload-new"), PaletteLookup::Cached(_, true)));
}

#[test]
fn rediscover_refreshes_files_but_not_builtins() {
    let mut reg: ThemeRegistry<bool> = ThemeRegistry::new(builtins());
    let files = vec![("/p/mine.json".to_string(), Ok(("mine".to_string(), Ok(false))))];
    reg.init_discovery(files);
    let again = vec![
        ("/q/mine.json".to_string(), Ok(("mine".to_string(), true))),
        ("/q/dark.json".to_string(), Ok(("dark".to_string(), false))),
    ];
    let report = reg.rediscover(again);
    assert_eq!(report.skipped, 1);
    assert!(matches!(reg.load_palette("pi:mine"), PaletteLookup::Cached(_, true)));
    assert!(matches!(reg.load_palette("pi:dark"), PaletteLookup::Cached(_, true)));
    let mine = reg.list_themes().into_iter().find(|t| t.name == "mine").unwrap();
    assert_eq!(mine.path.as_deref(), Some("/q/mine.json"));
}

#[test]
fn load_palette_rejects_non_pi_ids() {
    let mut reg: ThemeRegistry<bool> = ThemeRegistry::new(builtins());
    assert!(matches!(reg.load_palette("dark"), PaletteLookup::Failed(LoadError::InvalidName(m)) if m == "dark"));
}

#[test]
fn hex_byte_slicing_is_checked() {
    assert!(hex_slices_on_char_boundaries("#112233"));
    assert!(hex_slices_on_char_boundaries("#12"));
    assert!(!hex_slices_on_char_boundaries("aé123"));
}

#[test]
fn builtins_mark_the_registry_initialized() {
    let mut reg: ThemeRegistry<bool> = ThemeRegistry::new(builtins());
    assert!(!reg.is_initialized());
    reg.ensure_builtins();
    assert!(reg.is_initialized());
}

#[test]
fn listing_registers_the_builtins_first() {
    let mut reg: ThemeRegistry<bool> = ThemeRegistry::new(builtins());
    let names: Vec<String> = reg.list_themes().into_iter().map(|t| t.name).collect();
    assert_eq!(names, vec!["dark", "light", "transparent", "transparent-light"]);
    reg.reset_registry();
    let list = reg.list_themes();
    assert_eq!(list.len(), 4);
    assert!(list.iter().all(|t| t.builtin && t.path.is_none() && t.id == theme_id(&t.name)));
    assert!(matches!(reg.load_palette("pi:light"), PaletteLookup::Cached(id, false) if id == "pi:light"));
}

#[test]
fn load_after_reset_finds_the_dark_builtin() {
    let mut reg: ThemeRegistry<bool> = ThemeRegistry::new(builtins());
    let files = vec![("/p/custom.json".to_string(), Ok(("custom".to_string(), Ok(true))))];
    reg.init_discovery(files);
    reg.reset_registry();
    assert!(matches!(reg.load_palette("pi:dark"), PaletteLookup::Cached(id, true) if id == "pi:dark"));
    assert!(matches!(reg.load_palette("pi:custom"), PaletteLookup::Failed(LoadError::InvalidName(_))));
}

#[test]
fn tokens_resolve_in_order_and_report_the_first_failure() {
    let vars = vars(&[("blue", ColorValue::Text("#0000ff".into()))]);
    let ok = vec![
        ("accent".to_string(), ColorValue::Text("blue".into())),
        ("text".to_string(), ColorValue::Text("".into())),
        ("dim".to_string(), ColorValue::Index(8)),
    ];
    assert_eq!(resolve_tokens(&ok, &vars).unwrap(), vec![PiColor::Rgb(0, 0, 255), PiColor::Reset, PiColor::Indexed(8)]);
    let bad = vec![
        ("accent".to_string(), ColorValue::Text("blue".into())),
        ("border".to_string(), ColorValue::Text("missing".into())),
        ("muted".to_string(), ColorValue::Index(300)),
    ];
    let err = resolve_tokens(&bad, &vars).unwrap_err();
    assert!(matches!(&err, MapError::Color(t, ColorError::UnknownVar(v)) if t == "border" && v == "missing"));
    assert_eq!(err.message(), "token `border`: unknown theme variable: missing");
}
