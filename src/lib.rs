//! Editing core of a terminal text editor: a line store shared by several
//! cursors, the coordination of multi-cursor edits, and the composition of
//! the visible frame.

pub mod buffer;
pub mod cursor_set;
pub mod cursors;
pub mod editor;
pub mod message;
pub mod render;
pub mod split;
pub mod view;
pub mod weave;
