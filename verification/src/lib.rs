//! Workspace dependency graph construction for a monorepo build tool.
//!
//! Given a root manifest and a set of discovered workspace manifests, the
//! builder decides which declared dependencies point at other in-repo
//! workspaces and which at external registry packages, connects the
//! workspaces into a directed graph anchored at a distinguished root vertex,
//! and, when per-workspace transitive closures are available, attaches them
//! to the workspace table.
//!
//! Names, version specifiers and paths are modelled as UTF-8 byte strings;
//! every specification is stated over their byte sequences.

pub mod builder;
pub mod bytes;
pub mod classify;
pub mod digraph;
pub mod graph;
pub mod laws;
pub mod manifest;
pub mod name;
pub mod paths;
pub mod semver;
pub mod table;
