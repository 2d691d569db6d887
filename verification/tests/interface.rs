use polyorama::interface::{VirtualisationMetrics, RESULT_COUNT, THUMBNAIL_COUNT};
use polyorama::ids::PaneId;
use polyorama::interface::{
    density_variant, theme_variant, validate_plan_target_panes, RenderPlanSubmissionError, ActionButtonState, AppearancePreference, ContrastPreference,
    DensityPreference, DensityVariant, ThemeVariant,
};
use polyorama::ids::DockNodeId;
use polyorama::semantics::{preference_semantic_id, SemanticActionId, SemanticUiId};
use polyorama::text::{
    NativeTextControlKind, TextAuditCoverage, TextExclusion, TextLayoutError, TextOverflow,
    TextRole, TextSpec,
};

#[test]
fn theme_and_density_selection_are_orthogonal() {
    assert_eq!(
        theme_variant(AppearancePreference::System, ContrastPreference::High, false),
        ThemeVariant::LightHighContrast
    );
    assert_eq!(
        theme_variant(AppearancePreference::System, ContrastPreference::High, true),
        ThemeVariant::DarkHighContrast
    );
    assert_eq!(theme_variant(AppearancePreference::Unknown, ContrastPreference::Standard, false), ThemeVariant::Dark);
    assert_eq!(density_variant(DensityPreference::Compact), DensityVariant::Compact);
    assert_eq!(density_variant(DensityPreference::Unknown), DensityVariant::Comfortable);
}

#[test]
fn button_states_report_their_toggle() {
    assert!(ActionButtonState::Toggle { pressed: true }.pressed());
    assert!(!ActionButtonState::Momentary.pressed());
    assert_eq!(ActionButtonState::Toggle { pressed: false }.toggled(), Some(false));
    assert_eq!(ActionButtonState::Momentary.toggled(), None);
}

#[test]
fn semantic_ids_are_stable_text() {
    assert_eq!(SemanticUiId::root().0, "application");
    assert_eq!(SemanticUiId::default().0, "application");
    assert_eq!(SemanticUiId::pane(PaneId(4)).0, "pane.4");
    assert_eq!(SemanticUiId::tab(PaneId(12)).0, "polyorama.dock.tab.12");
    assert_eq!(SemanticUiId::splitter(DockNodeId(7)).0, "polyorama.dock.splitter.7");
    assert_eq!(
        preference_semantic_id(&SemanticUiId::new("settings"), "density", "compact").0,
        "settings.preferences.density.compact"
    );
    assert_eq!(SemanticActionId::from_stable_id("undo").as_str(), "undo");
}

#[test]
fn text_line_limits_are_validated() {
    let spec = TextSpec::single_line(TextRole::Body, TextOverflow::Ellipsis);
    assert_eq!(spec.max_lines, 1);
    assert_eq!(spec.validate(), Ok(spec));
    let too_many = TextSpec { max_lines: 9, ..spec };
    assert_eq!(too_many.validate(), Err(TextLayoutError::InvalidMaxLines(9)));
    let none = TextSpec { max_lines: 0, ..spec };
    assert_eq!(none.validate(), Err(TextLayoutError::InvalidMaxLines(0)));
}

#[test]
fn coverage_starts_with_ordinary_labels_excluded() {
    let coverage = TextAuditCoverage::default();
    assert_eq!(coverage.measured_components, 0);
    assert_eq!(coverage.excluded_categories, vec![TextExclusion::OrdinaryEguiLabels]);
    assert_eq!(NativeTextControlKind::Slider.exclusion(), TextExclusion::NativeSliderText);
}

#[test]
fn render_plan_correspondence_rejects_count_order_and_duplicates() {
    assert_eq!(
        validate_plan_target_panes(&[PaneId(1)], &[]),
        Err(RenderPlanSubmissionError::CountMismatch { requests: 1, targets: 0 })
    );
    assert!(matches!(
        validate_plan_target_panes(&[PaneId(1), PaneId(2)], &[PaneId(2), PaneId(1)]),
        Err(RenderPlanSubmissionError::PaneMismatch { index: 0, .. })
    ));
    assert_eq!(
        validate_plan_target_panes(&[PaneId(1), PaneId(1)], &[PaneId(1), PaneId(1)]),
        Err(RenderPlanSubmissionError::DuplicatePane(PaneId(1)))
    );
    assert!(validate_plan_target_panes(&[PaneId(1), PaneId(2)], &[PaneId(1), PaneId(2)]).is_ok());
}

#[test]
fn render_plan_errors_are_reported() {
    assert_eq!(
        RenderPlanSubmissionError::CountMismatch { requests: 2, targets: 1 }.message(),
        "render plan has 2 requests but 1 staged targets"
    );
    assert_eq!(
        RenderPlanSubmissionError::PaneMismatch { index: 0, request: PaneId(3), target: PaneId(4) }.message(),
        "render plan request 0 is pane 3 but its staged target is pane 4"
    );
    assert_eq!(
        RenderPlanSubmissionError::DuplicatePane(PaneId(7)).message(),
        "render plan contains pane 7 more than once"
    );
}

#[test]
fn virtualisation_metrics_start_with_nothing_visible() {
    let metrics = VirtualisationMetrics::default();
    assert_eq!(metrics.result_count, RESULT_COUNT);
    assert_eq!(metrics.thumbnail_count, THUMBNAIL_COUNT);
    assert_eq!(metrics.visible_rows, (0, 0));
    assert_eq!(metrics.visible_thumbnails, (0, 0));
    assert_eq!(metrics.materialised_rows, 0);
    assert_eq!(metrics.materialised_thumbnails, 0);
    assert_eq!(metrics.row_overscan, 8);
}
