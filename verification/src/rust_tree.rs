//! The tree renderer: option set, listing parser, entry filter, sort policy,
//! line renderer and traversal engine.

pub mod cli;
pub mod dates;
pub mod display;
pub mod entry;
pub mod filter;
pub mod fromfile;
pub mod listing;
pub mod numbers;
pub mod options;
pub mod render;
pub mod sorting;
pub mod text;
pub mod traversal;
pub mod walker;
pub mod utils;
pub mod virtual_tree;
pub mod words;
