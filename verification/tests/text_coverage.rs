use polyorama::text::{
    text_audit_coverage, PassInventory, TextAuditCoverage, TextComponentId, TextComponentKind, TextExclusion,
};

fn component(instance: u64) -> TextComponentId {
    TextComponentId::new(TextComponentKind::ActionButton, instance)
}

#[test]
fn native_inventory_counts_controls_without_measuring_them() {
    let pass = PassInventory {
        native_text_controls: 1,
        exclusions: vec![TextExclusion::NativeRadioButtonText],
        components: vec![],
    };
    let coverage = text_audit_coverage(&vec![], Some(&pass));
    assert_eq!(coverage.measured_components, 0);
    assert_eq!(coverage.native_text_controls, 1);
    assert_eq!(coverage.observed_native_controls, 0);
    assert_eq!(
        coverage.excluded_categories,
        vec![TextExclusion::OrdinaryEguiLabels, TextExclusion::NativeRadioButtonText]
    );
}

#[test]
fn a_pass_without_inventory_has_the_default_coverage() {
    assert_eq!(text_audit_coverage(&vec![], None), TextAuditCoverage::default());
}

#[test]
fn observations_count_distinct_components_and_failures() {
    let observations = vec![(component(1), false), (component(1), true), (component(2), false)];
    let coverage = text_audit_coverage(&observations, None);
    assert_eq!(coverage.measured_components, 2);
    assert_eq!(coverage.attempted_components, 2);
    assert_eq!(coverage.failed_components, 1);
    assert_eq!(coverage.successful_components, 1);

    let pass = PassInventory {
        native_text_controls: 0,
        exclusions: vec![],
        components: vec![(component(2), true), (component(3), false)],
    };
    let coverage = text_audit_coverage(&observations, Some(&pass));
    assert_eq!(coverage.measured_components, 2);
    assert_eq!(coverage.attempted_components, 3);
    assert_eq!(coverage.failed_components, 2);
    assert_eq!(coverage.successful_components, 1);
}
