//! Polyorama workspace model: the canonical dock tree, undoable image
//! commands, tile residency, presentation metadata, design tokens and the
//! rules of the repository tooling.
pub mod ids;
pub mod strings;
pub mod text_scan;
pub mod text_order;
pub mod dock;
pub mod commands;
pub mod runtime;
pub mod residency;
pub mod actions;
pub mod text;
pub mod semantics;
pub mod interface;
pub mod tokens;
pub mod token_source;
pub mod token_output;
pub mod ui_tool;
pub mod fixtures;
pub mod plans;
pub mod architecture;
pub mod paths;
