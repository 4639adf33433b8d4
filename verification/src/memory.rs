//! A table-driven front-end plugin.
//!
//! Hosts that compile in-memory sources (and the crate's own tests) need a
//! front-end that serves resolution, content, transforms and dependency
//! analysis from plain tables instead of a filesystem.  Every decision is
//! an exact lookup, so builds through this plugin are reproducible.

use vstd::prelude::*;
use crate::module::{Module, ModuleType};
use crate::paths::str_eq;
use crate::error::CompilationError;
use crate::plugin::{Plugin, PluginAnalyzeDepsHookResultEntry, PluginLoadHookParam, PluginLoadHookResult, PluginResolveHookParam, PluginResolveHookResult, PluginTransformHookParam, PluginTransformHookResult};

verus! {

/// One loadable file: its project-relative path, raw content and type.
pub struct MemoryFile {
    pub relative_path: String,
    pub content: String,
    pub module_type: ModuleType,
}

/// One dependency row: the importer's relative path and its import sites.
pub struct MemoryDeps {
    pub importer: String,
    pub deps: Vec<PluginAnalyzeDepsHookResultEntry>,
}

/// A front-end over in-memory tables: specifiers resolve by exact lookup,
/// content and dependencies come from the tables.
pub struct MemoryPlugin {
    /// Specifier to absolute resolved path; a `true` flag marks the target
    /// external.
    pub resolves: Vec<(String, String, bool)>,
    pub files: Vec<MemoryFile>,
    /// Content replacements applied at the transform hook, by relative
    /// path.
    pub transforms: Vec<(String, String)>,
    pub deps: Vec<MemoryDeps>,
    /// Relative paths of modules that accept hot updates themselves.
    pub accept_paths: Vec<String>,
}

impl MemoryPlugin {
    /// An empty table set.
    pub fn new() -> (r: MemoryPlugin)
        ensures
            r.resolves@.len() == 0,
            r.files@.len() == 0,
    {
        MemoryPlugin {
            resolves: Vec::new(),
            files: Vec::new(),
            transforms: Vec::new(),
            deps: Vec::new(),
            accept_paths: Vec::new(),
        }
    }
}

impl Plugin for MemoryPlugin {
    fn name(&self) -> String {
        "memory".to_owned()
    }

    fn priority(&self) -> i64 {
        100
    }

    fn resolve(&self, param: &PluginResolveHookParam) -> (r: Result<
        Option<PluginResolveHookResult>,
        CompilationError,
    >) {
        let mut i: usize = 0;
        while i < self.resolves.len()
            decreases self.resolves@.len() - i,
        {
            if str_eq(self.resolves[i].0.as_str(), param.source.as_str()) {
                return Ok(
                    Some(
                        PluginResolveHookResult {
                            resolved_path: self.resolves[i].1.clone(),
                            external: self.resolves[i].2,
                            side_effects: false,
                            query: String::new(),
                        },
                    ),
                );
            }
            i = i + 1;
        }
        Ok(None)
    }

    fn load(&self, param: &PluginLoadHookParam) -> (r: Result<
        Option<PluginLoadHookResult>,
        CompilationError,
    >) {
        let mut i: usize = 0;
        while i < self.files.len()
            decreases self.files@.len() - i,
        {
            if str_eq(self.files[i].relative_path.as_str(), param.resolved_path.as_str()) {
                return Ok(
                    Some(
                        PluginLoadHookResult {
                            content: self.files[i].content.clone(),
                            module_type: self.files[i].module_type.duplicate(),
                        },
                    ),
                );
            }
            i = i + 1;
        }
        Ok(None)
    }

    fn transform(&self, param: &PluginTransformHookParam) -> (r: Result<
        Option<PluginTransformHookResult>,
        CompilationError,
    >) {
        let mut i: usize = 0;
        while i < self.transforms.len()
            decreases self.transforms@.len() - i,
        {
            if str_eq(self.transforms[i].0.as_str(), param.resolved_path.as_str()) {
                return Ok(
                    Some(
                        PluginTransformHookResult {
                            content: self.transforms[i].1.clone(),
                            source_map: None,
                            module_type: None,
                        },
                    ),
                );
            }
            i = i + 1;
        }
        Ok(None)
    }

    fn process_module(&self, module: &mut Module) -> (r: Result<(), CompilationError>) {
        let mut i: usize = 0;
        while i < self.accept_paths.len()
            decreases self.accept_paths@.len() - i,
        {
            if str_eq(self.accept_paths[i].as_str(), module.id.relative_path.as_str()) {
                module.hmr_self_accepted = true;
            }
            i = i + 1;
        }
        Ok(())
    }

    fn analyze_deps(&self, module: &Module) -> (r: Result<
        Vec<PluginAnalyzeDepsHookResultEntry>,
        CompilationError,
    >) {
        let mut i: usize = 0;
        while i < self.deps.len()
            decreases self.deps@.len() - i,
        {
            if str_eq(self.deps[i].importer.as_str(), module.id.relative_path.as_str()) {
                let mut out: Vec<PluginAnalyzeDepsHookResultEntry> = Vec::new();
                let mut d: usize = 0;
                while d < self.deps[i].deps.len()
                    invariant
                        i < self.deps@.len(),
                    decreases self.deps@[i as int].deps@.len() - d,
                {
                    out.push(self.deps[i].deps[d].duplicate());
                    d = d + 1;
                }
                return Ok(out);
            }
            i = i + 1;
        }
        Ok(Vec::new())
    }
}

} // verus!
