use std::collections::BTreeSet;

use polyorama::actions::{
    action_semantic_id, stable_action_hash, stable_id_hash, ActionKey, ActionScope, ActionShortcut,
    ActionSpec, Availability, ShortcutKey,
};
use polyorama::ids::PaneId;

#[derive(Clone, Copy, Debug, Eq, Hash, Ord, PartialEq, PartialOrd)]
enum TestAction {
    Undo,
    FitView,
    CommitPolygon,
    AppearanceSettings,
    DisplaySettings,
}

impl TestAction {
    const ALL: [Self; 5] = [
        Self::Undo,
        Self::FitView,
        Self::CommitPolygon,
        Self::AppearanceSettings,
        Self::DisplaySettings,
    ];
}

impl ActionKey for TestAction {
    fn stable_id(self) -> &'static str {
        match self {
            Self::Undo => "undo",
            Self::FitView => "fit_view",
            Self::CommitPolygon => "commit_polygon",
            Self::AppearanceSettings => "appearance_settings",
            Self::DisplaySettings => "display_settings",
        }
    }

    fn specification(self) -> ActionSpec<Self> {
        let (label, description, compact_label, shortcut, scope) = match self {
            Self::Undo => (
                "Undo",
                "Undo the most recent change",
                None,
                Some(ActionShortcut::command(ShortcutKey::Z)),
                ActionScope::Application,
            ),
            Self::FitView => (
                "Fit view",
                "Fit the complete image into the active viewport",
                Some("Fit"),
                Some(ActionShortcut::new(ShortcutKey::F)),
                ActionScope::Pane,
            ),
            Self::CommitPolygon => (
                "Commit polygon",
                "Commit the current polygon annotation",
                Some("Commit"),
                Some(ActionShortcut::new(ShortcutKey::Enter)),
                ActionScope::ActivePane,
            ),
            Self::AppearanceSettings => (
                "Appearance",
                "Adjust interface appearance",
                Some("Display"),
                None,
                ActionScope::Application,
            ),
            Self::DisplaySettings => (
                "Display",
                "Adjust image display settings",
                None,
                None,
                ActionScope::Pane,
            ),
        };
        ActionSpec { id: self, label, description, compact_label, shortcut, scope }
    }
}

#[test]
fn availability_retains_observable_disabled_reason() {
    let availability = Availability::Disabled { reason: "History is empty".into() };
    assert!(!availability.enabled());
    assert!(availability.visible());
    assert_eq!(availability.disabled_reason(), Some("History is empty"));
    assert!(!Availability::Hidden.visible());
}

#[test]
fn shortcuts_are_unique_within_overlapping_scopes() {
    let mut seen = BTreeSet::new();
    for id in TestAction::ALL {
        let spec = id.specification();
        if let Some(shortcut) = spec.shortcut {
            assert!(seen.insert((spec.scope, shortcut)), "duplicate shortcut for {id:?}");
        }
    }
}

#[test]
fn registry_is_complete_unique_and_has_stable_identity() {
    let ids: BTreeSet<_> = TestAction::ALL.into_iter().collect();
    assert_eq!(ids.len(), TestAction::ALL.len());
    for id in TestAction::ALL {
        let spec = id.specification();
        assert_eq!(spec.id, id);
        assert!(!id.stable_id().is_empty());
        assert!(!spec.label.is_empty());
        assert!(!spec.description.is_empty());
    }
    assert_eq!(
        action_semantic_id(TestAction::FitView.stable_id(), Some(PaneId(3))),
        "action.fit_view.pane.3"
    );
    assert_eq!(action_semantic_id("undo", None), "action.undo");
}

#[test]
fn stable_identity_does_not_depend_on_enum_ordinal() {
    assert_eq!(TestAction::Undo.stable_id(), "undo");
    assert_eq!(TestAction::FitView.stable_id(), "fit_view");
    assert_ne!(stable_action_hash(TestAction::Undo, None), stable_action_hash(TestAction::FitView, None));
    assert_ne!(
        stable_action_hash(TestAction::FitView, None),
        stable_action_hash(TestAction::FitView, Some(PaneId(1)))
    );
    assert!(stable_action_hash(TestAction::FitView, Some(PaneId(u32::MAX))) < (1_u64 << 53));
}

#[test]
fn stable_hash_is_masked_fnv1a() {
    let mut hash: u64 = 0xcbf2_9ce4_8422_2325;
    for byte in b"undo".iter().copied().chain([0u8]) {
        hash = (hash ^ u64::from(byte)).wrapping_mul(0x0000_0100_0000_01b3);
    }
    assert_eq!(stable_id_hash("undo", None), hash & ((1 << 53) - 1));
}

#[test]
fn shortcuts_are_shown_with_their_modifiers() {
    assert_eq!(ActionShortcut::command(ShortcutKey::Z).display(), "Ctrl/Cmd+Z");
    assert_eq!(ActionShortcut::command_shift(ShortcutKey::Z).display(), "Ctrl/Cmd+Shift+Z");
    assert_eq!(ActionShortcut::new(ShortcutKey::Enter).display(), "Enter");
    let all = ActionShortcut { command: false, shift: true, alt: true, key: ShortcutKey::One };
    assert_eq!(all.display(), "Shift+Alt+1");
    assert_eq!(ShortcutKey::Delete.label(), "Delete");
}

#[test]
fn enabled_and_hidden_actions_have_no_reason() {
    assert!(Availability::Enabled.enabled());
    assert_eq!(Availability::Enabled.disabled_reason(), None);
    assert_eq!(Availability::Hidden.disabled_reason(), None);
    assert!(!Availability::Hidden.enabled());
}
