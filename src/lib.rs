//! Sticky outline headers for an editor toolbar: which enclosing structural
//! items stay pinned above the scroll position, how the toolbar item reacts to
//! a change of the active pane, and the rows that it lays out.

pub mod label;
pub mod outline;
pub mod toolbar;

pub use label::line_number_label;
pub use outline::{compute_sticky_headers, EditorSnapshot, OutlineItem, OutlineItemView};
pub use toolbar::{EditorHandle, PaneItem, ScrollHeader, StickyRow, ToolbarItemLocation};
