//! Verified core of a web-application bundler.
//!
//! The crate builds a module dependency graph from a set of entry points,
//! derives module groups at dynamic-import boundaries, partitions modules
//! into resource pots, and maintains a content-addressed module cache, all
//! behind contracts checked by Verus.  Host concerns (filesystem watching,
//! on-disk persistence, language front-ends) live outside the library and
//! talk to it through plain values.

pub mod bundling;
pub mod cache;
pub mod compiler;
pub mod config;
pub mod context;
pub mod error;
pub mod record;
pub mod update;
pub mod hashing;
pub mod memory;
pub mod module;
pub mod module_bucket;
pub mod module_graph;
pub mod module_group;
pub mod reach;
pub mod resource_pot;
pub mod watch_graph;
pub mod watcher;
pub mod paths;
pub mod plugin;
