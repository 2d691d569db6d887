//! Typed identifiers shared by every part of the workspace.
use vstd::prelude::*;

verus! {

/// A dockable pane.
#[derive(Clone, Copy, Debug, Default, PartialEq, Eq, Hash, PartialOrd, Ord, Structural)]
pub struct PaneId(pub u32);

/// An annotation layer of a document.
#[derive(Clone, Copy, Debug, Default, PartialEq, Eq, Hash, PartialOrd, Ord, Structural)]
pub struct LayerId(pub u32);

/// An annotation polygon of a document.
#[derive(Clone, Copy, Debug, Default, PartialEq, Eq, Hash, PartialOrd, Ord, Structural)]
pub struct AnnotationId(pub u64);

/// A row of the analysis result table.
#[derive(Clone, Copy, Debug, Default, PartialEq, Eq, Hash, PartialOrd, Ord, Structural)]
pub struct ResultId(pub u64);

/// An image source whose tiles are decoded and rendered.
#[derive(Clone, Copy, Debug, Default, PartialEq, Eq, Hash, PartialOrd, Ord, Structural)]
pub struct SourceId(pub u32);

/// A group of panes whose cameras move together.
#[derive(Clone, Copy, Debug, Default, PartialEq, Eq, Hash, PartialOrd, Ord, Structural)]
pub struct LinkGroupId(pub u32);

/// A node of the dock tree.
#[derive(Clone, Copy, Debug, Default, PartialEq, Eq, Hash, PartialOrd, Ord, Structural)]
pub struct DockNodeId(pub u64);

} // verus!
