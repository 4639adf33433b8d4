//! The compilation context.
//!
//! One context is shared by a whole compilation: the configuration, the
//! graphs, the resource maps, the caches, the plugin driver, the
//! per-front-end metadata and the diagnostic stores, as independently
//! accessible sub-components.

use vstd::prelude::*;
use crate::cache::CacheManager;
use crate::config::Config;
use crate::error::CompilationError;
use crate::module_graph::ModuleGraph;
use crate::module_group::ModuleGroupGraph;
use crate::plugin::{Plugin, PluginDriver};
use crate::record::RecordManager;
use crate::resource_pot::{Resource, ResourcePot, ResourcePotType};
use crate::watch_graph::{contains_path, is_direct_dependent, lemma_dependent_preserved, WatchGraph};

verus! {

/// Opaque shared state of the script front-end.
pub struct ScriptContextMetaData {
    /// Serialized runtime syntax tree, when a plugin produced one.
    pub runtime_ast: Option<Vec<u8>>,
}

impl ScriptContextMetaData {
    /// Empty script metadata.
    pub fn new() -> (r: ScriptContextMetaData)
        ensures
            r.runtime_ast is None,
    {
        ScriptContextMetaData { runtime_ast: None }
    }
}

impl Default for ScriptContextMetaData {
    fn default() -> (r: ScriptContextMetaData)
        ensures
            r.runtime_ast is None,
    {
        ScriptContextMetaData::new()
    }
}

/// Opaque shared state of the CSS front-end.
pub struct CssContextMetaData {
    /// Opaque payload a CSS front-end plugin may share across hooks.
    pub payload: Vec<u8>,
}

impl CssContextMetaData {
    /// Empty CSS metadata.
    pub fn new() -> (r: CssContextMetaData)
        ensures
            r.payload@.len() == 0,
    {
        CssContextMetaData { payload: Vec::new() }
    }
}

impl Default for CssContextMetaData {
    fn default() -> (r: CssContextMetaData)
        ensures
            r.payload@.len() == 0,
    {
        CssContextMetaData::new()
    }
}

/// Opaque shared state of the HTML front-end.
pub struct HtmlContextMetaData {
    /// Opaque payload an HTML front-end plugin may share across hooks.
    pub payload: Vec<u8>,
}

impl HtmlContextMetaData {
    /// Empty HTML metadata.
    pub fn new() -> (r: HtmlContextMetaData)
        ensures
            r.payload@.len() == 0,
    {
        HtmlContextMetaData { payload: Vec::new() }
    }
}

impl Default for HtmlContextMetaData {
    fn default() -> (r: HtmlContextMetaData)
        ensures
            r.payload@.len() == 0,
    {
        HtmlContextMetaData::new()
    }
}

/// Shared metadata for the core front-ends, plus a keyed scratch space for
/// custom plugins.
pub struct ContextMetaData {
    pub script: ScriptContextMetaData,
    pub css: CssContextMetaData,
    pub html: HtmlContextMetaData,
    /// Cross-plugin scratch space: opaque bytes by key.
    pub custom: Vec<(String, Vec<u8>)>,
}

impl ContextMetaData {
    /// Empty metadata.
    pub fn new() -> (r: ContextMetaData)
        ensures
            r.custom@.len() == 0,
    {
        ContextMetaData {
            script: ScriptContextMetaData::new(),
            css: CssContextMetaData::new(),
            html: HtmlContextMetaData::new(),
            custom: Vec::new(),
        }
    }
}

impl Default for ContextMetaData {
    fn default() -> (r: ContextMetaData)
        ensures
            r.custom@.len() == 0,
    {
        ContextMetaData::new()
    }
}

/// Warnings and errors appended by plugins.
pub struct LogStore {
    pub warnings: Vec<String>,
    pub errors: Vec<String>,
}

impl LogStore {
    /// An empty log store.
    pub fn new() -> (r: LogStore)
        ensures
            r.warnings@.len() == 0,
            r.errors@.len() == 0,
    {
        LogStore { warnings: Vec::new(), errors: Vec::new() }
    }

    /// Appends a warning.
    pub fn add_warning(&mut self, message: String)
        ensures
            final(self).warnings@ == old(self).warnings@.push(message),
            final(self).errors@ == old(self).errors@,
    {
        self.warnings.push(message);
    }

    /// Appends an error message.
    pub fn add_error(&mut self, message: String)
        ensures
            final(self).errors@ == old(self).errors@.push(message),
            final(self).warnings@ == old(self).warnings@,
    {
        self.errors.push(message);
    }
}

/// The resources map holds an entry named `name` carrying `bytes`, not
/// yet emitted.
pub open spec fn resources_hold(s: Seq<(String, Resource)>, name: Seq<char>, bytes: Seq<u8>) -> bool {
    exists|i: int|
        0 <= i < s.len() && (#[trigger] s[i]).0@ == name && s[i].1.name@ == name && s[i].1.bytes@
            == bytes && s[i].1.emitted == false
}

/// The resources map holds an entry equal to `e`.
pub open spec fn resources_hold_entry(s: Seq<(String, Resource)>, e: (String, Resource)) -> bool {
    exists|i: int| 0 <= i < s.len() && s[i] == e
}

/// Watch-graph node `j` spells the producer path `from` or one of the
/// dependency paths `deps`.
pub open spec fn watch_node_among(g: &WatchGraph, j: int, from: Seq<char>, deps: Seq<String>) -> bool {
    g.nodes@[j]@ == from || exists|d: int| 0 <= d < deps.len() && g.nodes@[j]@ == (#[trigger] deps[d])@
}

/// Watch-graph edge `k` runs from the node spelling `from` to a node
/// spelling one of the paths in `deps`.
pub open spec fn watch_edge_from_to(g: &WatchGraph, k: int, from: Seq<char>, deps: Seq<String>) -> bool {
    g.nodes@[g.edges@[k].0 as int]@ == from && exists|d: int|
        0 <= d < deps.len() && g.nodes@[g.edges@[k].1 as int]@ == (#[trigger] deps[d])@
}

/// Parameters of `emit_file`: a resource emitted by a plugin outside the
/// render stage.
pub struct EmitFileParams {
    pub name: String,
    pub content: Vec<u8>,
    pub resource_type: ResourcePotType,
}

/// Shared state of one compilation, one sub-component per concern.
pub struct CompilationContext<P> {
    pub config: Config,
    pub watch_graph: WatchGraph,
    pub module_graph: ModuleGraph,
    pub module_group_graph: ModuleGroupGraph,
    pub plugin_driver: PluginDriver<P>,
    pub resource_pot_map: Vec<ResourcePot>,
    /// Emitted resources keyed by resource name.
    pub resources_map: Vec<(String, Resource)>,
    pub cache_manager: CacheManager,
    pub meta: ContextMetaData,
    pub record_manager: RecordManager,
    pub log_store: LogStore,
}

impl<P: Plugin> CompilationContext<P> {
    /// Builds the shared context; infallible for a validated
    /// configuration.
    pub fn new(config: Config, plugins: Vec<P>) -> (r: Result<
        CompilationContext<P>,
        CompilationError,
    >)
        ensures
            r is Ok,
            r matches Ok(c) ==> c.module_graph.wf() && c.module_graph.modules@.len() == 0
                && c.watch_graph.wf() && c.cache_manager.module_cache.wf()
                && c.resources_map@.len() == 0 && c.config == config,
            // everything starts empty: no modules, edges, entries, watched
            // paths, groups or pots are invented at construction
            r matches Ok(c) ==> c.module_graph.edges@.len() == 0 && c.module_graph.entries@.len()
                == 0 && c.watch_graph.nodes@.len() == 0 && c.watch_graph.edges@.len() == 0
                && c.module_group_graph.roots@.len() == 0 && c.module_group_graph.membership@.len()
                == 0 && c.resource_pot_map@.len() == 0,
    {
        let cache_manager = if config.persistent_cache {
            CacheManager::new(config.cache_dir.as_str(), config.namespace.as_str(), config.mode)
        } else {
            CacheManager::new("", "", config.mode)
        };
        Ok(
            CompilationContext {
                watch_graph: WatchGraph::new(),
                module_graph: ModuleGraph::new(),
                module_group_graph: ModuleGroupGraph { roots: Vec::new(), membership: Vec::new() },
                plugin_driver: PluginDriver::new(plugins),
                resource_pot_map: Vec::new(),
                resources_map: Vec::new(),
                cache_manager,
                config,
                meta: ContextMetaData::new(),
                record_manager: RecordManager::new(),
                log_store: LogStore::new(),
            },
        )
    }

    /// The default context: default configuration and no plugins.
    pub fn new_default() -> (r: CompilationContext<P>)
        ensures
            r.module_graph.wf(),
            r.module_graph.modules@.len() == 0,
            r.module_graph.edges@.len() == 0,
            r.module_graph.entries@.len() == 0,
            r.watch_graph.wf(),
            r.watch_graph.nodes@.len() == 0,
            r.watch_graph.edges@.len() == 0,
            r.module_group_graph.roots@.len() == 0,
            r.module_group_graph.membership@.len() == 0,
            r.resource_pot_map@.len() == 0,
            r.resources_map@.len() == 0,
    {
        match CompilationContext::new(Config::new_default(), Vec::new()) {
            Ok(c) => c,
            Err(_) => CompilationContext {
                watch_graph: WatchGraph::new(),
                module_graph: ModuleGraph::new(),
                module_group_graph: ModuleGroupGraph { roots: Vec::new(), membership: Vec::new() },
                plugin_driver: PluginDriver::new(Vec::new()),
                resource_pot_map: Vec::new(),
                resources_map: Vec::new(),
                cache_manager: CacheManager::new("", "", crate::module::Mode::Development),
                config: Config::new_default(),
                meta: ContextMetaData::new(),
                record_manager: RecordManager::new(),
                log_store: LogStore::new(),
            },
        }
    }

    /// Records that producing `from` consulted each file in `deps`: all
    /// paths join the watch graph, with one consulted-by edge per
    /// dependency.
    pub fn add_watch_files(&mut self, from: String, deps: Vec<String>) -> (r: Result<
        (),
        CompilationError,
    >)
        requires
            old(self).watch_graph.wf(),
        ensures
            r is Ok,
            final(self).watch_graph.wf(),
            deps@.len() > 0 ==> contains_path(final(self).watch_graph.nodes@, from@),
            forall|d: int|
                0 <= d < deps@.len() ==> contains_path(
                    final(self).watch_graph.nodes@,
                    (#[trigger] deps@[d])@,
                ),
            forall|d: int|
                0 <= d < deps@.len() ==> is_direct_dependent(
                    &final(self).watch_graph,
                    from@,
                    (#[trigger] deps@[d])@,
                ),
            // only the watch graph changes
            final(self).config == old(self).config,
            final(self).module_graph == old(self).module_graph,
            final(self).module_group_graph == old(self).module_group_graph,
            final(self).plugin_driver == old(self).plugin_driver,
            final(self).resource_pot_map@ == old(self).resource_pot_map@,
            final(self).resources_map@ == old(self).resources_map@,
            final(self).cache_manager == old(self).cache_manager,
            final(self).meta == old(self).meta,
            final(self).record_manager == old(self).record_manager,
            final(self).log_store == old(self).log_store,
            // existing watched paths and consulted-by edges are kept in
            // place
            old(self).watch_graph.nodes@.len() <= final(self).watch_graph.nodes@.len(),
            forall|j: int|
                0 <= j < old(self).watch_graph.nodes@.len()
                    ==> final(self).watch_graph.nodes@[j] == old(self).watch_graph.nodes@[j],
            old(self).watch_graph.edges@.len() <= final(self).watch_graph.edges@.len(),
            forall|k: int|
                0 <= k < old(self).watch_graph.edges@.len()
                    ==> final(self).watch_graph.edges@[k] == old(self).watch_graph.edges@[k],
            // no path is invented: every new node is the producer or one of
            // its dependencies
            forall|j: int|
                old(self).watch_graph.nodes@.len() <= j < final(self).watch_graph.nodes@.len()
                    ==> #[trigger] watch_node_among(&final(self).watch_graph, j, from@, deps@),
            // no edge is invented: every new edge runs from the producer to
            // one of its dependencies
            forall|k: int|
                old(self).watch_graph.edges@.len() <= k < final(self).watch_graph.edges@.len()
                    ==> #[trigger] watch_edge_from_to(&final(self).watch_graph, k, from@, deps@),
    {
        let mut i: usize = 0;
        while i < deps.len()
            invariant
                i <= deps@.len(),
                self.watch_graph.wf(),
                i > 0 ==> contains_path(self.watch_graph.nodes@, from@),
                forall|d: int|
                    0 <= d < i ==> contains_path(self.watch_graph.nodes@, (#[trigger] deps@[d])@),
                forall|d: int|
                    0 <= d < i ==> is_direct_dependent(&self.watch_graph, from@, (#[trigger] deps@[d])@),
                self.config == old(self).config,
                self.module_graph == old(self).module_graph,
                self.module_group_graph == old(self).module_group_graph,
                self.plugin_driver == old(self).plugin_driver,
                self.resource_pot_map@ == old(self).resource_pot_map@,
                self.resources_map@ == old(self).resources_map@,
                self.cache_manager == old(self).cache_manager,
                self.meta == old(self).meta,
                self.record_manager == old(self).record_manager,
                self.log_store == old(self).log_store,
                old(self).watch_graph.nodes@.len() <= self.watch_graph.nodes@.len(),
                forall|j: int|
                    0 <= j < old(self).watch_graph.nodes@.len()
                        ==> self.watch_graph.nodes@[j] == old(self).watch_graph.nodes@[j],
                old(self).watch_graph.edges@.len() <= self.watch_graph.edges@.len(),
                forall|k: int|
                    0 <= k < old(self).watch_graph.edges@.len()
                        ==> self.watch_graph.edges@[k] == old(self).watch_graph.edges@[k],
                forall|j: int|
                    old(self).watch_graph.nodes@.len() <= j < self.watch_graph.nodes@.len()
                        ==> #[trigger] watch_node_among(&self.watch_graph, j, from@, deps@),
                forall|k: int|
                    old(self).watch_graph.edges@.len() <= k < self.watch_graph.edges@.len()
                        ==> #[trigger] watch_edge_from_to(&self.watch_graph, k, from@, deps@),
            decreases deps@.len() - i,
        {
            let ghost g0 = self.watch_graph;
            let r1 = self.watch_graph.add_node(from.clone());
            let ghost g1 = self.watch_graph;
            let r2 = self.watch_graph.add_node(deps[i].clone());
            let ghost g2 = self.watch_graph;
            let added = self.watch_graph.add_edge(from.as_str(), deps[i].as_str());
            proof {
                assert(g2.nodes@[r1 as int]@ == from@);
                assert(contains_path(g2.nodes@, from@));
                assert(g2.nodes@[r2 as int]@ == deps@[i as int]@);
                assert(contains_path(g2.nodes@, deps@[i as int]@));
                assert(added);
                assert forall|d: int| 0 <= d < i + 1 implies contains_path(
                    self.watch_graph.nodes@,
                    (#[trigger] deps@[d])@,
                ) && is_direct_dependent(&self.watch_graph, from@, deps@[d]@) by {
                    if d < i {
                        let w = choose|w: int|
                            0 <= w < g0.nodes@.len() && g0.nodes@[w]@ == deps@[d]@;
                        assert(self.watch_graph.nodes@[w]@ == deps@[d]@);
                        lemma_dependent_preserved(&g0, &self.watch_graph, from@, deps@[d]@);
                    } else {
                        assert(self.watch_graph.edges@.last()
                            == self.watch_graph.edges@[self.watch_graph.edges@.len() - 1]);
                    }
                }
                let wf = choose|w: int|
                    0 <= w < g2.nodes@.len() && g2.nodes@[w]@ == from@;
                assert(self.watch_graph.nodes@[wf]@ == from@);
                // frame: the earlier nodes and edges are kept in place, and
                // everything appended this round names the producer or a
                // dependency
                assert(g1.nodes@ == g0.nodes@ || g1.nodes@ == g0.nodes@.push(from));
                assert(g2.nodes@ == g1.nodes@ || g2.nodes@ == g1.nodes@.push(deps@[i as int]));
                assert forall|j: int| 0 <= j < g0.nodes@.len() implies self.watch_graph.nodes@[j]
                    == g0.nodes@[j] by {}
                assert forall|j: int|
                    old(self).watch_graph.nodes@.len() <= j < self.watch_graph.nodes@.len()
                    implies #[trigger] watch_node_among(&self.watch_graph, j, from@, deps@) by {
                    if j < g0.nodes@.len() {
                        assert(watch_node_among(&g0, j, from@, deps@));
                        assert(self.watch_graph.nodes@[j] == g0.nodes@[j]);
                        if !(g0.nodes@[j]@ == from@) {
                            let d = choose|d: int|
                                0 <= d < deps@.len() && g0.nodes@[j]@ == (#[trigger] deps@[d])@;
                            assert(self.watch_graph.nodes@[j]@ == deps@[d]@);
                        }
                    } else if j < g1.nodes@.len() {
                        assert(self.watch_graph.nodes@[j]@ == from@);
                    } else {
                        assert(self.watch_graph.nodes@[j]@ == deps@[i as int]@);
                    }
                }
                let last_e = self.watch_graph.edges@.last();
                assert(self.watch_graph.edges@ == g2.edges@.push(last_e));
                assert(g2.nodes@[last_e.0 as int]@ == from@ && g2.nodes@[last_e.1 as int]@
                    == deps@[i as int]@);
                assert forall|k: int|
                    old(self).watch_graph.edges@.len() <= k < self.watch_graph.edges@.len()
                    implies #[trigger] watch_edge_from_to(&self.watch_graph, k, from@, deps@) by {
                    if k < g0.edges@.len() {
                        assert(watch_edge_from_to(&g0, k, from@, deps@));
                        assert(self.watch_graph.edges@[k] == g0.edges@[k]);
                        assert(g0.edges@[k].0 < g0.nodes@.len() && g0.edges@[k].1 < g0.nodes@.len());
                        assert(self.watch_graph.nodes@[g0.edges@[k].0 as int]
                            == g0.nodes@[g0.edges@[k].0 as int]);
                        assert(self.watch_graph.nodes@[g0.edges@[k].1 as int]
                            == g0.nodes@[g0.edges@[k].1 as int]);
                        let d = choose|d: int|
                            0 <= d < deps@.len() && g0.nodes@[g0.edges@[k].1 as int]@
                                == (#[trigger] deps@[d])@;
                        assert(self.watch_graph.nodes@[self.watch_graph.edges@[k].1 as int]@
                            == deps@[d]@);
                    } else {
                        assert(self.watch_graph.edges@[k] == last_e);
                        assert(self.watch_graph.nodes@[last_e.1 as int]@ == deps@[i as int]@);
                    }
                }
            }
            i = i + 1;
        }
        Ok(())
    }

    /// Deposits an emitted file into the resources map, replacing any
    /// resource of the same name.
    pub fn emit_file(&mut self, params: EmitFileParams)
        ensures
            // the emitted resource is stored under its name with its bytes
            resources_hold(final(self).resources_map@, params.name@, params.content@),
            // resources under other names are kept
            forall|j: int|
                0 <= j < old(self).resources_map@.len() && (#[trigger] old(
                    self,
                ).resources_map@[j]).0@ != params.name@ ==> resources_hold_entry(
                    final(self).resources_map@,
                    old(self).resources_map@[j],
                ),
    {
        let ghost pname = params.name@;
        let ghost pbytes = params.content@;
        let resource = Resource {
            name: params.name.clone(),
            bytes: params.content,
            emitted: false,
            resource_type: params.resource_type,
        };
        let ghost rm0 = self.resources_map@;
        let name_key = params.name;
        let entry = (name_key, resource);
        proof {
            assert(entry.0@ == pname && entry.1.name@ == pname && entry.1.bytes@ == pbytes
                && entry.1.emitted == false);
        }
        let ghost entry0 = entry;
        let mut found: Option<usize> = None;
        let mut i: usize = 0;
        while i < self.resources_map.len()
            invariant
                i <= self.resources_map@.len(),
                self.resources_map@ == rm0,
                match found {
                    Some(f) => f < rm0.len() && rm0[f as int].0@ == entry.0@,
                    None => true,
                },
                entry == entry0,
            decreases self.resources_map@.len() - i,
        {
            if found.is_none() && crate::paths::str_eq(
                self.resources_map[i].0.as_str(),
                entry.0.as_str(),
            ) {
                found = Some(i);
            }
            i = i + 1;
        }
        match found {
            Some(f) => {
                self.resources_map[f] = entry;
                proof {
                    assert(self.resources_map@ =~= rm0.update(f as int, entry0));
                    assert(self.resources_map@[f as int] == entry0);
                    assert(resources_hold(self.resources_map@, pname, pbytes));
                    assert forall|j: int|
                        0 <= j < rm0.len() && (#[trigger] rm0[j]).0@ != pname
                        implies resources_hold_entry(self.resources_map@, rm0[j]) by {
                        assert(rm0[f as int].0@ == pname);
                        assert(j != f);
                        assert(self.resources_map@[j] == rm0[j]);
                        assert(resources_hold_entry(self.resources_map@, self.resources_map@[j]));
                    }
                }
            },
            None => {
                self.resources_map.push(entry);
                proof {
                    let ghost li = self.resources_map@.len() - 1;
                    assert(self.resources_map@[li] == entry0);
                    assert(resources_hold(self.resources_map@, pname, pbytes));
                    assert forall|j: int|
                        0 <= j < rm0.len() && (#[trigger] rm0[j]).0@ != pname
                        implies resources_hold_entry(self.resources_map@, rm0[j]) by {
                        assert(self.resources_map@[j] == rm0[j]);
                        assert(resources_hold_entry(self.resources_map@, self.resources_map@[j]));
                    }
                }
            },
        }
    }
}

impl<P: Plugin> Default for CompilationContext<P> {
    /// The default context: default configuration and no plugins.
    fn default() -> (r: CompilationContext<P>)
        ensures
            r.module_graph.wf(),
            r.watch_graph.wf(),
    {
        CompilationContext::new_default()
    }
}

} // verus!
