use std::collections::BTreeSet;

use polyorama::dock::{DockDrop, DockNode, Workspace, LAYOUT_SCHEMA_VERSION};
use polyorama::ids::{DockNodeId, PaneId};

#[test]
fn canonical_tree_has_stable_unique_panes() {
    let workspace = Workspace::analytical_default();
    workspace.validate().unwrap();
    let mut panes = Vec::new();
    workspace.root.pane_ids(&mut panes);
    assert_eq!(panes, (1..=8).map(PaneId).collect::<Vec<_>>());
}

#[test]
fn rejects_duplicate_pane_ids() {
    let mut workspace = Workspace::analytical_default();
    workspace.root = DockNode::Tabs { id: DockNodeId(1), tabs: vec![PaneId(1), PaneId(1)], active: 0 };
    assert!(workspace.validate().is_err());
}

#[test]
fn rejects_unknown_persistence_schema() {
    let mut workspace = Workspace::analytical_default();
    workspace.schema_version = LAYOUT_SCHEMA_VERSION + 1;
    assert_eq!(
        workspace.validate(),
        Err(format!("unsupported layout schema {}", LAYOUT_SCHEMA_VERSION + 1))
    );
}

#[test]
fn rearrangement_mutates_only_the_canonical_tree() {
    let mut workspace = Workspace::analytical_default();
    assert!(workspace.move_pane(PaneId(2), PaneId(1), DockDrop::Tab));
    workspace.validate().unwrap();
    assert_eq!(workspace.active_pane, PaneId(2));
}

#[test]
fn node_ids_remain_unique_after_side_drop() {
    let mut workspace = Workspace::analytical_default();
    assert!(workspace.move_pane(PaneId(2), PaneId(4), DockDrop::Left));
    workspace.validate().unwrap();
    let mut node_ids = Vec::new();
    workspace.root.node_ids(&mut node_ids);
    assert_eq!(node_ids.len(), node_ids.iter().collect::<BTreeSet<_>>().len());
}

#[test]
fn invalid_move_target_preserves_the_workspace() {
    let mut workspace = Workspace::analytical_default();
    let before = workspace.clone();
    assert!(!workspace.move_pane(PaneId(2), PaneId(99), DockDrop::Tab));
    assert_eq!(workspace, before);
}

#[test]
fn moving_a_pane_onto_itself_is_refused() {
    let mut workspace = Workspace::analytical_default();
    let before = workspace.clone();
    assert!(!workspace.move_pane(PaneId(3), PaneId(3), DockDrop::Right));
    assert_eq!(workspace, before);
}

#[test]
fn activating_a_pane_focuses_it_and_keeps_every_pane() {
    let mut workspace = Workspace::analytical_default();
    workspace.activate(PaneId(5));
    assert_eq!(workspace.active_pane, PaneId(5));
    workspace.validate().unwrap();
    let mut panes = Vec::new();
    workspace.root.pane_ids(&mut panes);
    assert_eq!(panes.len(), 8);
}

#[test]
fn split_fractions_are_bounded() {
    let mut workspace = Workspace::analytical_default();
    let mut ids = Vec::new();
    workspace.root.node_ids(&mut ids);
    let split = ids
        .iter()
        .copied()
        .find(|id| workspace.root.split_fraction(*id).is_some())
        .unwrap();
    assert!(workspace.root.set_split_fraction(split, 9_500));
    assert_eq!(workspace.root.split_fraction(split), Some(9_000));
    assert!(workspace.root.set_split_fraction(split, 10));
    assert_eq!(workspace.root.split_fraction(split), Some(1_000));
    assert!(!workspace.root.set_split_fraction(DockNodeId(999), 5_000));
}
