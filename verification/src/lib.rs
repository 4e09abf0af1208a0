//! A terminal file browser's core: the navigation state, the ordering of
//! directory entries, key handling and the text shaping used by the panes.

pub mod app;
pub mod entry;
pub mod filesystem;
pub mod input;
pub mod text;
pub mod ui;
pub mod unicode;
pub mod wrap;
