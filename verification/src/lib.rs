//! Builds the navigation menu of a documentation site from a snapshot of its
//! content directory and a hand-written skeleton of top-level entries, and
//! prepares preview links for single documents and single categories.

pub mod assemble;
pub mod cli;
pub mod content;
pub mod error;
pub mod extension;
pub mod front_matter;
pub mod laws;
pub mod menu;
pub mod order;
pub mod preview;
pub mod sidebar;
pub mod text;
