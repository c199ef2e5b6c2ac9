//! Core logic of a terminal directory browser: best-effort recursive size
//! aggregation over a directory tree, directory scanning, structural
//! resolution of navigation tokens into absolute paths, and the navigation
//! state machine that ties them together.
pub mod fs_tree;
pub mod listing;
pub mod nav;
pub mod paths;
