//! The logic of `pj`, a launcher that tracks project directories, ranks them
//! by how recently and how often they were used, and narrows them down by
//! tags and fuzzy filter terms. Every function here is verified by Verus
//! against the contract in its header; what the contracts rest on without
//! proof is a handful of wrappers around `std`, `chrono` and `dirs`, each
//! marked `external_body`.

pub mod commands;
pub mod config;
pub mod error;
pub mod frecency;
pub mod github;
pub mod paths;
pub mod projects;
pub mod shell;
pub mod text;
pub mod tools;
pub mod tui;
