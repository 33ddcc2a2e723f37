//! Content discovery and page rendering for a small portfolio site.
//!
//! The library turns what was read of a template tree (directory listings,
//! file contents) into typed manifests of pages and categories, composes
//! pages from a base layout by placeholder substitution, and delivers them
//! either as live responses or as the files of a static export whose paths
//! live under a sub-path.
pub mod assets;
pub mod background;
pub mod compose;
pub mod encode;
pub mod feature;
pub mod json;
pub mod lines;
pub mod manifest;
pub mod metadata;
pub mod mode;
pub mod order;
pub mod rewrite;
pub mod routes;
pub mod serialize;
pub mod site;
pub mod text;
