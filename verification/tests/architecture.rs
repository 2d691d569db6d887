use polyorama::architecture::{
    check_application_shell, check_canonical_workspace, check_egui_integration, check_managed_style,
    check_pane_api, check_pane_dispatcher, check_renderer, check_text_sizing,
};

#[test]
fn pane_sources_may_not_reach_broad_state() {
    assert!(check_pane_api("fn show(model: &PaneReadModel) {}").is_ok());
    assert_eq!(
        check_pane_api("fn show(runtime: &mut Runtime, session: &mut Session) {}"),
        Err("pane API contains forbidden broad access: &mut Runtime".to_string())
    );
}

#[test]
fn counted_text_sizes_are_refused() {
    assert!(check_text_sizing("a.rs", "let width = galley.size().x;").is_ok());
    assert_eq!(
        check_text_sizing("a.rs", "let width = name.chars().count();"),
        Err("production UI source a.rs contains forbidden character-count text sizing pattern \".chars().count()\"; use egui galley measurement".to_string())
    );
}

#[test]
fn spacing_and_styles_go_through_tokens() {
    assert!(check_managed_style("app.rs", "ui.add_space(tokens.spacing.small);\n").is_ok());
    assert_eq!(
        check_managed_style("app.rs", "fn a() {}\n\n    ui.add_space(4.0);\n"),
        Err("production UI source app.rs:3 contains unmanaged spacing; use typed spacing tokens".to_string())
    );
    assert_eq!(
        check_managed_style("app.rs", "ui.button(\"Go\");"),
        Err("production UI source app.rs contains unmanaged style or control primitive \"ui.button(\"; use typed tokens and a polyorama-ui-egui recipe".to_string())
    );
}

#[test]
fn the_pane_dispatcher_stays_narrow() {
    let good = "pub struct PaneSurface {\n    state: PaneFeatureState,\n}\nPaneReadModel PaneIntent\n";
    assert!(check_pane_dispatcher(good).is_ok());
    assert_eq!(
        check_pane_dispatcher("pub struct PaneSurface {\n    pub title: String,\n}\n"),
        Err("PaneSurface exposes presentation fields instead of read models and feature state".to_string())
    );
    assert_eq!(check_pane_dispatcher("struct Other;"), Err("PaneSurface is missing".to_string()));
    assert_eq!(
        check_pane_dispatcher("pub struct PaneSurface {\n    state: PaneFeatureState,\n}\nPaneIntent\n"),
        Err("narrow pane API is missing PaneReadModel".to_string())
    );
    assert_eq!(
        check_pane_dispatcher("fn image_pane() {}"),
        Err("pane dispatcher contains feature implementation: fn image_pane".to_string())
    );
}

#[test]
fn lifecycle_and_device_rules() {
    assert!(check_application_shell("if let Err(error) = submit_render_plan(&outputs.render_plan, x)").is_ok());
    assert!(check_application_shell("submit(plan)").is_err());
    assert!(check_egui_integration("RenderPlanSubmissionError validate_plan_target_panes stage_renderer_maintenance").is_ok());
    assert_eq!(
        check_egui_integration("ctx.request_repaint()"),
        Err("egui integration must report interaction activity through FrameOutput".to_string())
    );
    assert!(check_renderer("device.create_device()").is_err());
    assert!(check_renderer("queue.submit()").is_ok());
}

#[test]
fn one_workspace_definition() {
    assert!(check_canonical_workspace("pub struct Workspace {", "").is_ok());
    assert_eq!(
        check_canonical_workspace("pub struct Workspace {", "pub struct Workspace {"),
        Err("expected exactly one canonical Workspace definition, found 2".to_string())
    );
    assert_eq!(
        check_canonical_workspace("", ""),
        Err("expected exactly one canonical Workspace definition, found 0".to_string())
    );
}
