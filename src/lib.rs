//! A navigable listing of one directory: entries sorted by name, directories
//! before files, a focus cursor and a scroll window that keeps it visible.
pub mod color;
pub mod entry;
pub mod laws;
pub mod order;
pub mod text;
pub mod view;
