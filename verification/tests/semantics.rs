use polyorama::semantics::{audit_snapshot, AuditNode, SemanticAuditFinding, SemanticUiId};

fn sample() -> Vec<AuditNode> {
    vec![
        AuditNode {
            id: SemanticUiId::root(),
            parent: None,
            rect_positive: true,
            inside_root: true,
            enabled: true,
            has_disabled_reason: false,
        },
        AuditNode {
            id: SemanticUiId::new("action.undo"),
            parent: Some(SemanticUiId::root()),
            rect_positive: true,
            inside_root: true,
            enabled: false,
            has_disabled_reason: true,
        },
    ]
}

#[test]
fn a_consistent_snapshot_has_no_findings() {
    assert!(audit_snapshot(&SemanticUiId::root(), &sample()).is_empty());
}

#[test]
fn audit_rejects_duplicate_missing_parent_and_invalid_geometry() {
    let mut nodes = sample();
    nodes.push(AuditNode {
        id: SemanticUiId::new("action.undo"),
        parent: Some(SemanticUiId::new("missing")),
        rect_positive: false,
        inside_root: false,
        enabled: false,
        has_disabled_reason: true,
    });
    let findings = audit_snapshot(&SemanticUiId::root(), &nodes);
    assert!(findings.iter().any(|finding| matches!(finding, SemanticAuditFinding::DuplicateId { .. })));
    assert!(findings.iter().any(|finding| matches!(finding, SemanticAuditFinding::MissingParent { .. })));
    assert!(findings.iter().any(|finding| matches!(finding, SemanticAuditFinding::InvalidRect { .. })));
    assert_eq!(
        findings,
        vec![
            SemanticAuditFinding::DuplicateId { id: SemanticUiId::new("action.undo") },
            SemanticAuditFinding::InvalidRect { id: SemanticUiId::new("action.undo") },
            SemanticAuditFinding::MissingParent {
                node: SemanticUiId::new("action.undo"),
                parent: SemanticUiId::new("missing"),
            },
        ]
    );
}

#[test]
fn missing_root_is_the_only_finding() {
    assert_eq!(
        audit_snapshot(&SemanticUiId::new("elsewhere"), &sample()),
        vec![SemanticAuditFinding::MissingRoot { id: SemanticUiId::new("elsewhere") }]
    );
}

#[test]
fn outside_nodes_and_enabled_reasons_are_reported() {
    let mut nodes = sample();
    nodes[1].inside_root = false;
    nodes[1].enabled = true;
    nodes[0].rect_positive = false;
    assert_eq!(
        audit_snapshot(&SemanticUiId::root(), &nodes),
        vec![
            SemanticAuditFinding::InvalidRect { id: SemanticUiId::root() },
            SemanticAuditFinding::InvalidRect { id: SemanticUiId::root() },
            SemanticAuditFinding::OutsideRoot { id: SemanticUiId::new("action.undo") },
            SemanticAuditFinding::EnabledWithDisabledReason { id: SemanticUiId::new("action.undo") },
        ]
    );
}
