use polyorama::ui_tool::parse_arguments;

fn arguments(values: &[&str]) -> Vec<String> {
    values.iter().map(|value| value.to_string()).collect()
}

#[test]
fn output_directory_is_mandatory() {
    let error = parse_arguments(vec!["list".into()]).unwrap_err();
    assert!(error.to_string().contains("explicit --output-dir"));
}

#[test]
fn render_requires_a_closed_fixture_selection() {
    let error = parse_arguments(vec!["render".into(), "--output-dir".into(), "out".into()]).unwrap_err();
    assert!(error.to_string().contains("requires --fixture"));
}

#[test]
fn automatic_baseline_update_flag_is_rejected() {
    let error = parse_arguments(vec!["verify".into(), "--output-dir".into(), "out".into(), "--update".into()])
        .unwrap_err();
    assert!(error.to_string().contains("unknown ui argument"));
}

#[test]
fn accepted_arguments_are_kept() {
    let parsed = parse_arguments(arguments(&["render", "--fixture", "dock", "--output-dir", "out"])).unwrap();
    assert_eq!(parsed.action, "render");
    assert_eq!(parsed.output_directory, "out");
    assert_eq!(parsed.fixture.as_deref(), Some("dock"));
    assert!(!parsed.all);
    let parsed = parse_arguments(arguments(&["audit-text", "--output-dir", "out", "--all"])).unwrap();
    assert!(parsed.all);
}

#[test]
fn conflicting_and_incomplete_selections_are_refused() {
    assert_eq!(
        parse_arguments(arguments(&["audit-text", "--output-dir", "o", "--all", "--fixture", "x"])),
        Err("use either --fixture <id> or --all, not both".to_string())
    );
    assert_eq!(
        parse_arguments(arguments(&["list", "--output-dir", "o", "--all"])),
        Err("ui list does not accept --fixture or --all".to_string())
    );
    assert_eq!(
        parse_arguments(arguments(&["audit-text", "--output-dir", "o"])),
        Err("ui audit-text requires --fixture <id> or --all".to_string())
    );
    assert_eq!(
        parse_arguments(arguments(&["render", "--fixture"])),
        Err("--fixture requires an id".to_string())
    );
    assert_eq!(
        parse_arguments(Vec::new()),
        Err("ui requires an action: list, render, inspect, audit-text or verify".to_string())
    );
    assert_eq!(
        parse_arguments(arguments(&["list", "--update"])),
        Err("unknown ui argument \"--update\"".to_string())
    );
}
