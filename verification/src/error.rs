//! Compilation errors.
//!
//! Every fallible stage reports one of these kinds; plugin hooks signal
//! failure with a kind and a message.  Cache read errors are not fatal and
//! never surface here: a bad entry is treated as absent.

use vstd::prelude::*;

verus! {

/// The error kinds of the compilation core.
#[derive(Debug)]
pub enum CompilationError {
    ResolveError { source: String, importer: String },
    LoadError { path: String },
    ParseError { path: String, detail: String },
    TransformError { path: String, detail: String },
    AnalyzeDepsError { path: String },
    ProcessModuleError { path: String },
    RenderError { pot: String },
    GenerateResourceError { pot: String },
    IoError { path: String, detail: String },
    CacheError { key: String, detail: String },
    ConfigError { detail: String },
    PluginError { plugin: String, detail: String },
    Generic { detail: String },
}

impl CompilationError {
    /// A short tag naming the error kind.
    pub fn kind_tag(&self) -> (r: String)
        ensures
            r@.len() > 0,
    {
        let tag = match self {
            CompilationError::ResolveError { .. } => "resolve",
            CompilationError::LoadError { .. } => "load",
            CompilationError::ParseError { .. } => "parse",
            CompilationError::TransformError { .. } => "transform",
            CompilationError::AnalyzeDepsError { .. } => "analyze-deps",
            CompilationError::ProcessModuleError { .. } => "process-module",
            CompilationError::RenderError { .. } => "render",
            CompilationError::GenerateResourceError { .. } => "generate-resource",
            CompilationError::IoError { .. } => "io",
            CompilationError::CacheError { .. } => "cache",
            CompilationError::ConfigError { .. } => "config",
            CompilationError::PluginError { .. } => "plugin",
            CompilationError::Generic { .. } => "generic",
        };
        proof {
            reveal_strlit("resolve");
            reveal_strlit("load");
            reveal_strlit("parse");
            reveal_strlit("transform");
            reveal_strlit("analyze-deps");
            reveal_strlit("process-module");
            reveal_strlit("render");
            reveal_strlit("generate-resource");
            reveal_strlit("io");
            reveal_strlit("cache");
            reveal_strlit("config");
            reveal_strlit("plugin");
            reveal_strlit("generic");
        }
        tag.to_owned()
    }

    /// A human-readable description: the kind tag and the failing subject.
    pub fn describe(&self) -> String {
        let subject = match self {
            CompilationError::ResolveError { source, .. } => source.clone(),
            CompilationError::LoadError { path } => path.clone(),
            CompilationError::ParseError { path, .. } => path.clone(),
            CompilationError::TransformError { path, .. } => path.clone(),
            CompilationError::AnalyzeDepsError { path } => path.clone(),
            CompilationError::ProcessModuleError { path } => path.clone(),
            CompilationError::RenderError { pot } => pot.clone(),
            CompilationError::GenerateResourceError { pot } => pot.clone(),
            CompilationError::IoError { path, .. } => path.clone(),
            CompilationError::CacheError { key, .. } => key.clone(),
            CompilationError::ConfigError { detail } => detail.clone(),
            CompilationError::PluginError { plugin, .. } => plugin.clone(),
            CompilationError::Generic { detail } => detail.clone(),
        };
        self.kind_tag().concat(": ").concat(subject.as_str())
    }
}

} // verus!
