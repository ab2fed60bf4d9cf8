//! Renders directory hierarchies, read from disk or rebuilt from an archive
//! listing, as an indented tree of text lines.

pub mod rust_tree;
