//! Compiler configuration.
//!
//! The configuration is assumed validated by the host; the core reads the
//! project root, the mode, the entry table, the cache settings and the
//! partial-bundling rules from it and mutates none of them after
//! `config_resolved`.

use vstd::prelude::*;
use crate::module::Mode;
use crate::module_bucket::PartialBundlingModuleBucketsConfig;

verus! {

/// The validated compiler configuration.
pub struct Config {
    /// Absolute project root; module ids are made relative to it.
    pub root: String,
    pub mode: Mode,
    /// Entry table: configured name and source specifier of each entry.
    pub entries: Vec<(String, String)>,
    /// Whether processed modules persist across builds.
    pub persistent_cache: bool,
    pub cache_dir: String,
    pub namespace: String,
    /// Partial-bundling bucket rules; the first rule applies, the default
    /// rule when none is given.
    pub partial_bundling_buckets: Vec<PartialBundlingModuleBucketsConfig>,
}

impl Config {
    /// A minimal configuration: empty root, development mode, no entries,
    /// no persistent cache, no bucket rules.
    pub fn new_default() -> (r: Config)
        ensures
            r.root@.len() == 0,
            r.mode == Mode::Development,
            r.entries@.len() == 0,
            r.persistent_cache == false,
            r.partial_bundling_buckets@.len() == 0,
    {
        Config {
            root: String::new(),
            mode: Mode::Development,
            entries: Vec::new(),
            persistent_cache: false,
            cache_dir: String::new(),
            namespace: String::new(),
            partial_bundling_buckets: Vec::new(),
        }
    }
}

impl Default for Config {
    /// The same minimal configuration, through the standard trait.
    fn default() -> (r: Config)
        ensures
            r.entries@.len() == 0,
            r.mode == Mode::Development,
    {
        Config::new_default()
    }
}

} // verus!
