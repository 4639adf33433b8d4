//! The plugin interface and its hook dispatch.
//!
//! A plugin declares a name and a priority and implements any subset of
//! the hooks; every hook defaults to "no decision".  The driver keeps the
//! plugins sorted by descending priority (ties keep registration order)
//! and dispatches each hook under its policy: first-non-empty, chained, or
//! serial.

use vstd::prelude::*;
use vstd::string::StringSliceAdditionalSpecFns;
use vstd::string::StrSliceExecFns;
use crate::error::CompilationError;
use crate::module::{Module, ModuleId, ModuleType, ResolveKind};
use crate::resource_pot::{Resource, ResourcePot};

verus! {

/// One dependency found by `analyze_deps`: the raw specifier and the kind
/// of the import site.
#[derive(Debug)]
pub struct PluginAnalyzeDepsHookResultEntry {
    pub source: String,
    pub kind: ResolveKind,
}

/// Structural equality of two dependency entries.
pub open spec fn dep_entry_matches(
    a: &PluginAnalyzeDepsHookResultEntry,
    b: &PluginAnalyzeDepsHookResultEntry,
) -> bool {
    a.source@ == b.source@ && a.kind == b.kind
}

impl PluginAnalyzeDepsHookResultEntry {
    /// A structurally equal copy.
    pub fn duplicate(&self) -> (r: PluginAnalyzeDepsHookResultEntry)
        ensures
            dep_entry_matches(&r, self),
    {
        PluginAnalyzeDepsHookResultEntry { source: self.source.clone(), kind: self.kind }
    }
}

/// Parameters of the `resolve` hook.
pub struct PluginResolveHookParam {
    /// The raw specifier written at the import site.
    pub source: String,
    /// The importing module, absent for entries.
    pub importer: Option<ModuleId>,
    pub kind: ResolveKind,
}

/// A resolution decision.
pub struct PluginResolveHookResult {
    pub resolved_path: String,
    pub external: bool,
    pub side_effects: bool,
    pub query: String,
}

/// Parameters of the `load` hook.
pub struct PluginLoadHookParam {
    pub resolved_path: String,
    pub query: String,
}

/// A load decision: raw content and its module type.
pub struct PluginLoadHookResult {
    pub content: String,
    pub module_type: ModuleType,
}

/// Parameters of the `transform` hook.
pub struct PluginTransformHookParam {
    pub content: String,
    pub module_type: ModuleType,
    pub resolved_path: String,
    pub query: String,
}

/// A transform decision: new content, and optionally a new module type
/// and a source map.
pub struct PluginTransformHookResult {
    pub content: String,
    pub source_map: Option<String>,
    pub module_type: Option<ModuleType>,
}

/// The extension interface: a name, a priority, and any subset of the
/// hooks, each defaulting to no decision.  A hook signals failure with a
/// tagged error, which fails the current hook round.
pub trait Plugin {
    /// The plugin's name, for records and diagnostics.
    fn name(&self) -> String;

    /// Dispatch priority; greater runs earlier.
    fn priority(&self) -> i64;

    /// Maps a specifier to a resolved path, or makes no decision.
    fn resolve(&self, param: &PluginResolveHookParam) -> (r: Result<
        Option<PluginResolveHookResult>,
        CompilationError,
    >) {
        Ok(None)
    }

    /// Produces the raw content of a resolved path, or makes no decision.
    fn load(&self, param: &PluginLoadHookParam) -> (r: Result<
        Option<PluginLoadHookResult>,
        CompilationError,
    >) {
        Ok(None)
    }

    /// Rewrites loaded content, or makes no decision.
    fn transform(&self, param: &PluginTransformHookParam) -> (r: Result<
        Option<PluginTransformHookResult>,
        CompilationError,
    >) {
        Ok(None)
    }

    /// Adjusts a finalized module in place.
    fn process_module(&self, module: &mut Module) -> (r: Result<(), CompilationError>) {
        Ok(())
    }

    /// Reports the dependencies of a module; results of all plugins are
    /// accumulated.
    fn analyze_deps(&self, module: &Module) -> (r: Result<
        Vec<PluginAnalyzeDepsHookResultEntry>,
        CompilationError,
    >) {
        Ok(Vec::new())
    }

    /// Renders a resource pot to its content, or makes no decision.
    fn render_resource_pot(&self, pot: &ResourcePot) -> (r: Result<Option<String>, CompilationError>) {
        Ok(None)
    }

    /// Emits the resources of a rendered pot, or makes no decision.
    fn generate_resources(&self, pot: &ResourcePot) -> (r: Result<
        Option<Vec<Resource>>,
        CompilationError,
    >) {
        Ok(None)
    }
}

/// A plugin that makes no decision at any hook; useful as a placeholder
/// plugin set.
pub struct NoopPlugin;

impl Plugin for NoopPlugin {
    fn name(&self) -> String {
        "noop".to_owned()
    }

    fn priority(&self) -> i64 {
        0
    }
}

/// A registered plugin together with the name and priority it declared at
/// registration.
pub struct PluginEntry<P> {
    pub plugin: P,
    pub name: String,
    pub priority: i64,
}

/// Entries sorted by descending priority.
pub open spec fn entries_sorted<P>(s: Seq<PluginEntry<P>>) -> bool {
    forall|i: int, j: int| 0 <= i < j < s.len() ==> s[i].priority >= s[j].priority
}

/// The entry list is a stable arrangement of the registered plugins:
/// `perm` maps each entry back to the plugin it was built from, without
/// repetition, and entries of equal priority keep their registration
/// order.
pub open spec fn stable_registration<P>(plugins: Seq<P>, entries: Seq<PluginEntry<P>>) -> bool {
    exists|perm: Seq<int>|
        #![trigger perm.len()]
        perm.len() == entries.len() && plugins.len() == entries.len() && (forall|k: int|
            0 <= k < perm.len() ==> 0 <= #[trigger] perm[k] < plugins.len()
                && entries[k].plugin == plugins[perm[k]]) && (forall|k1: int, k2: int|
            0 <= k1 < k2 < perm.len() ==> perm[k1] != perm[k2]) && (forall|k1: int, k2: int|
            0 <= k1 < k2 < perm.len() && entries[k1].priority == entries[k2].priority
                ==> perm[k1] < perm[k2])
}

/// Ordered, priority-respecting dispatch of the hook set to plugins.
pub struct PluginDriver<P> {
    pub entries: Vec<PluginEntry<P>>,
}

impl<P: Plugin> PluginDriver<P> {
    /// Registers `plugins`, sorted once by descending declared priority;
    /// plugins of equal priority keep their registration order.
    pub fn new(plugins: Vec<P>) -> (r: PluginDriver<P>)
        ensures
            entries_sorted(r.entries@),
            r.entries@.len() == plugins@.len(),
            stable_registration(plugins@, r.entries@),
    {
        let ghost n_plugins = plugins@.len();
        let ghost plugins_orig = plugins@;
        let mut incoming: Vec<PluginEntry<P>> = Vec::new();
        let mut plugins = plugins;
        while plugins.len() > 0
            invariant
                incoming@.len() + plugins@.len() == n_plugins,
                n_plugins == plugins_orig.len(),
                plugins@ =~= plugins_orig.skip(incoming@.len() as int),
                forall|j: int|
                    0 <= j < incoming@.len() ==> (#[trigger] incoming@[j]).plugin
                        == plugins_orig[j],
            decreases plugins@.len(),
        {
            let ghost inc0 = incoming@;
            let p = plugins.remove(0);
            let name = p.name();
            let priority = p.priority();
            incoming.push(PluginEntry { plugin: p, name, priority });
            proof {
                assert(plugins@ =~= plugins_orig.skip(incoming@.len() as int));
                assert forall|j: int|
                    0 <= j < incoming@.len() implies (#[trigger] incoming@[j]).plugin
                    == plugins_orig[j] by {
                    if j < incoming@.len() - 1 {
                        assert(incoming@[j] == inc0[j]);
                    } else {
                        assert(plugins_orig.skip(j)[0] == plugins_orig[j]);
                    }
                }
            }
        }
        let ghost total = incoming@.len();
        let ghost snapshot = incoming@;
        let mut entries: Vec<PluginEntry<P>> = Vec::new();
        let ghost mut pos: Seq<int> = Seq::new(total, |j: int| j);
        let ghost mut perm: Seq<int> = Seq::empty();
        while incoming.len() > 0
            invariant
                entries_sorted(entries@),
                entries@.len() + incoming@.len() == total,
                snapshot.len() == total,
                // everything placed precedes everything pending
                forall|i: int, j: int|
                    0 <= i < entries@.len() && 0 <= j < incoming@.len() ==> entries@[i].priority
                        >= incoming@[j].priority,
                // each pending entry is the snapshot entry its position
                // names, positions strictly increasing
                pos.len() == incoming@.len(),
                forall|j: int|
                    0 <= j < pos.len() ==> 0 <= #[trigger] pos[j] < total && incoming@[j]
                        == snapshot[pos[j]],
                forall|j1: int, j2: int| 0 <= j1 < j2 < pos.len() ==> pos[j1] < pos[j2],
                // each placed entry is the snapshot entry its permutation
                // slot names
                perm.len() == entries@.len(),
                forall|k: int|
                    0 <= k < perm.len() ==> 0 <= #[trigger] perm[k] < total && entries@[k]
                        == snapshot[perm[k]],
                forall|k1: int, k2: int| 0 <= k1 < k2 < perm.len() ==> perm[k1] != perm[k2],
                forall|k: int, j: int|
                    0 <= k < perm.len() && 0 <= j < pos.len() ==> #[trigger] perm[k]
                        != #[trigger] pos[j],
                // ties keep registration order, among the placed and
                // against the pending
                forall|k1: int, k2: int|
                    0 <= k1 < k2 < perm.len() && entries@[k1].priority == entries@[k2].priority
                        ==> perm[k1] < perm[k2],
                forall|k: int, j: int|
                    0 <= k < perm.len() && 0 <= j < pos.len() && entries@[k].priority
                        == incoming@[j].priority ==> #[trigger] perm[k] < #[trigger] pos[j],
            decreases incoming@.len(),
        {
            let mut best: usize = 0;
            let mut k: usize = 1;
            while k < incoming.len()
                invariant
                    k <= incoming@.len(),
                    best < incoming@.len(),
                    incoming@.len() > 0,
                    forall|t: int|
                        0 <= t < k ==> incoming@[best as int].priority >= incoming@[t].priority,
                    forall|t: int|
                        0 <= t < best ==> incoming@[t].priority < incoming@[best as int].priority,
                decreases incoming@.len() - k,
            {
                if incoming[k].priority > incoming[best].priority {
                    best = k;
                }
                k = k + 1;
            }
            let ghost inc0 = incoming@;
            let ghost pos0 = pos;
            let ghost pb = pos[best as int];
            let e = incoming.remove(best);
            let ghost entries0 = entries@;
            entries.push(e);
            proof {
                perm = perm.push(pb);
                pos = pos.remove(best as int);
                assert(e == snapshot[pb]);
                assert forall|i: int, j: int| 0 <= i < j < entries@.len() implies entries@[i].priority
                    >= entries@[j].priority by {
                    if j < entries@.len() - 1 {
                        assert(entries@[i] == entries0[i] && entries@[j] == entries0[j]);
                    } else if i < entries@.len() - 1 {
                        assert(entries@[i] == entries0[i]);
                    }
                }
                // the shrunken pending list keeps its correspondence
                assert forall|j: int|
                    0 <= j < pos.len() implies 0 <= #[trigger] pos[j] < total && incoming@[j]
                    == snapshot[pos[j]] by {
                    let j0: int = if j < best { j } else { j + 1 };
                    assert(pos[j] == pos0[j0] && incoming@[j] == inc0[j0]);
                }
                assert forall|j1: int, j2: int| 0 <= j1 < j2 < pos.len() implies pos[j1]
                    < pos[j2] by {
                    let a: int = if j1 < best { j1 } else { j1 + 1 };
                    let b: int = if j2 < best { j2 } else { j2 + 1 };
                    assert(pos[j1] == pos0[a] && pos[j2] == pos0[b]);
                }
                // the chosen entry was the first pending one of its
                // priority, so ties stay in registration order
                assert forall|kk: int, j: int|
                    0 <= kk < perm.len() && 0 <= j < pos.len() && entries@[kk].priority
                        == incoming@[j].priority implies #[trigger] perm[kk] < #[trigger] pos[j] by {
                    let j0: int = if j < best { j } else { j + 1 };
                    assert(pos[j] == pos0[j0] && incoming@[j] == inc0[j0]);
                    if kk < perm.len() - 1 {
                        assert(entries@[kk] == entries0[kk]);
                    } else {
                        assert(perm[kk] == pb && entries@[kk] == e);
                        if j0 < best {
                            assert(inc0[j0].priority < inc0[best as int].priority);
                            assert(false);
                        } else {
                            assert(pos0[best as int] < pos0[j0]);
                        }
                    }
                }
                assert forall|k1: int, k2: int|
                    0 <= k1 < k2 < perm.len() && entries@[k1].priority == entries@[k2].priority
                    implies perm[k1] < perm[k2] by {
                    if k2 < perm.len() - 1 {
                        assert(entries@[k1] == entries0[k1] && entries@[k2] == entries0[k2]);
                    } else {
                        assert(entries@[k1] == entries0[k1]);
                        assert(perm[k2] == pb && pb == pos0[best as int]);
                    }
                }
                assert forall|kk: int, j: int|
                    0 <= kk < perm.len() && 0 <= j < pos.len() implies #[trigger] perm[kk]
                    != #[trigger] pos[j] by {
                    let j0: int = if j < best { j } else { j + 1 };
                    assert(pos[j] == pos0[j0]);
                    if kk == perm.len() - 1 {
                        assert(perm[kk] == pos0[best as int]);
                    }
                }
                assert forall|k1: int, k2: int|
                    0 <= k1 < k2 < perm.len() implies perm[k1] != perm[k2] by {
                    if k2 == perm.len() - 1 {
                        assert(perm[k1] == perm.drop_last()[k1]);
                    }
                }
            }
        }
        proof {
            assert(perm.len() == total && entries@.len() == total);
            assert forall|k: int|
                0 <= k < perm.len() implies 0 <= #[trigger] perm[k] < plugins_orig.len()
                && entries@[k].plugin == plugins_orig[perm[k]] by {
                assert(entries@[k] == snapshot[perm[k]]);
                assert(snapshot[perm[k]].plugin == plugins_orig[perm[k]]);
            }
            assert(stable_registration(plugins_orig, entries@));
        }
        PluginDriver { entries }
    }

    /// The number of registered plugins.
    pub fn len(&self) -> (r: usize)
        ensures
            r == self.entries@.len(),
    {
        self.entries.len()
    }

    /// Dispatches `resolve` under the first-non-empty policy: plugins are
    /// asked in priority order until one decides; a hook error fails the
    /// round.
    pub fn resolve(&self, param: &PluginResolveHookParam) -> (r: Result<
        Option<PluginResolveHookResult>,
        CompilationError,
    >)
        ensures
            r matches Err(e) ==> e is PluginError,
    {
        let mut i: usize = 0;
        while i < self.entries.len()
            decreases self.entries@.len() - i,
        {
            match self.entries[i].plugin.resolve(param) {
                Ok(Some(r)) => {
                    return Ok(Some(r));
                },
                Ok(None) => {},
                Err(e) => {
                    return Err(wrap_hook_error(&self.entries[i].name, e));
                },
            }
            i = i + 1;
        }
        Ok(None)
    }

    /// Dispatches `load` under the first-non-empty policy; a hook error
    /// fails the round.
    pub fn load(&self, param: &PluginLoadHookParam) -> (r: Result<
        Option<PluginLoadHookResult>,
        CompilationError,
    >)
        ensures
            r matches Err(e) ==> e is PluginError,
    {
        let mut i: usize = 0;
        while i < self.entries.len()
            decreases self.entries@.len() - i,
        {
            match self.entries[i].plugin.load(param) {
                Ok(Some(r)) => {
                    return Ok(Some(r));
                },
                Ok(None) => {},
                Err(e) => {
                    return Err(wrap_hook_error(&self.entries[i].name, e));
                },
            }
            i = i + 1;
        }
        Ok(None)
    }

    /// Dispatches `transform` under the chained policy: every plugin may
    /// transform, each seeing the previous plugin's output; a hook error
    /// fails the round.  The chain rewrites content and module type only:
    /// the module's path and query pass through unchanged.
    pub fn transform(&self, param: PluginTransformHookParam) -> (r: Result<
        PluginTransformHookParam,
        CompilationError,
    >)
        ensures
            r matches Ok(t) ==> t.resolved_path@ == param.resolved_path@ && t.query@
                == param.query@,
            r matches Err(e) ==> e is PluginError,
    {
        let mut param = param;
        let ghost path0 = param.resolved_path@;
        let ghost query0 = param.query@;
        let mut i: usize = 0;
        while i < self.entries.len()
            invariant
                param.resolved_path@ == path0,
                param.query@ == query0,
            decreases self.entries@.len() - i,
        {
            match self.entries[i].plugin.transform(&param) {
                Ok(Some(out)) => {
                    let module_type = match out.module_type {
                        Some(t) => t,
                        None => param.module_type,
                    };
                    param = PluginTransformHookParam {
                        content: out.content,
                        module_type,
                        resolved_path: param.resolved_path,
                        query: param.query,
                    };
                },
                Ok(None) => {},
                Err(e) => {
                    return Err(wrap_hook_error(&self.entries[i].name, e));
                },
            }
            i = i + 1;
        }
        Ok(param)
    }

    /// Dispatches `process_module` serially to every plugin; a hook error
    /// fails the round.
    pub fn process_module(&self, module: &mut Module) -> (r: Result<(), CompilationError>) {
        let mut i: usize = 0;
        while i < self.entries.len()
            decreases self.entries@.len() - i,
        {
            match self.entries[i].plugin.process_module(module) {
                Ok(()) => {},
                Err(e) => {
                    return Err(wrap_hook_error(&self.entries[i].name, e));
                },
            }
            i = i + 1;
        }
        Ok(())
    }

    /// Dispatches `analyze_deps` serially, accumulating every plugin's
    /// entries in priority order; a hook error fails the round.
    pub fn analyze_deps(&self, module: &Module) -> Result<
        Vec<PluginAnalyzeDepsHookResultEntry>,
        CompilationError,
    > {
        let mut out: Vec<PluginAnalyzeDepsHookResultEntry> = Vec::new();
        let mut i: usize = 0;
        while i < self.entries.len()
            decreases self.entries@.len() - i,
        {
            match self.entries[i].plugin.analyze_deps(module) {
                Ok(mut found) => {
                    out.append(&mut found);
                },
                Err(e) => {
                    return Err(wrap_hook_error(&self.entries[i].name, e));
                },
            }
            i = i + 1;
        }
        Ok(out)
    }

    /// Dispatches `render_resource_pot` under the first-non-empty policy;
    /// when no plugin decides, the default render applies: the modules'
    /// transformed contents joined in pot order.  A hook error fails the
    /// round.
    pub fn render_resource_pot(&self, pot: &ResourcePot, graph: &crate::module_graph::ModuleGraph) -> (r:
        Result<String, CompilationError>)
        requires
            forall|j: int| 0 <= j < pot.modules@.len() ==> (#[trigger] pot.modules@[j]) < graph.modules@.len(),
    {
        let mut i: usize = 0;
        while i < self.entries.len()
            decreases self.entries@.len() - i,
        {
            match self.entries[i].plugin.render_resource_pot(pot) {
                Ok(Some(content)) => {
                    return Ok(content);
                },
                Ok(None) => {},
                Err(e) => {
                    return Err(wrap_hook_error(&self.entries[i].name, e));
                },
            }
            i = i + 1;
        }
        let mut content = String::new();
        let mut j: usize = 0;
        while j < pot.modules.len()
            invariant
                forall|t: int|
                    0 <= t < pot.modules@.len() ==> (#[trigger] pot.modules@[t]) < graph.modules@.len(),
            decreases pot.modules@.len() - j,
        {
            content = content.concat(graph.modules[pot.modules[j]].transformed_content.as_str());
            content = content.concat("\n");
            j = j + 1;
        }
        Ok(content)
    }

    /// Dispatches `generate_resources` under the first-non-empty policy;
    /// the default emits one resource named after the pot, carrying the
    /// rendered content.  A hook error fails the round.
    pub fn generate_resources(&self, pot: &ResourcePot, rendered: &str) -> (r: Result<
        Vec<Resource>,
        CompilationError,
    >) {
        let mut i: usize = 0;
        while i < self.entries.len()
            decreases self.entries@.len() - i,
        {
            match self.entries[i].plugin.generate_resources(pot) {
                Ok(Some(resources)) => {
                    return Ok(resources);
                },
                Ok(None) => {},
                Err(e) => {
                    return Err(wrap_hook_error(&self.entries[i].name, e));
                },
            }
            i = i + 1;
        }
        let mut out: Vec<Resource> = Vec::new();
        out.push(
            Resource {
                name: pot.id.clone(),
                bytes: string_bytes(rendered),
                emitted: false,
                resource_type: pot.resource_pot_type.clone(),
            },
        );
        Ok(out)
    }
}

/// Tags a hook failure with the erring plugin's name; the inner kind
/// stays readable in the detail.
pub fn wrap_hook_error(plugin: &String, e: CompilationError) -> (r: CompilationError)
    ensures
        r is PluginError,
{
    CompilationError::PluginError { plugin: plugin.clone(), detail: e.describe() }
}

/// Copies the bytes of a string.
pub fn string_bytes(s: &str) -> (r: Vec<u8>)
    ensures
        r@ == s.spec_bytes(),
{
    s.as_bytes_vec()
}

} // verus!
