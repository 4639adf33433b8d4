//! The compiler: full builds.
//!
//! `compile` drives the whole pipeline: entries are resolved through the
//! plugin driver, a worklist builds the module graph (load, cache probe,
//! transform, process, analyze-deps per module), groups are derived at
//! dynamic-import boundaries, partial bundling cuts resource pots, and the
//! render stage deposits the emitted resources.  On success the partition
//! coverage law holds of the stored pots: every non-external module in a
//! group sits in exactly one pot.

use vstd::prelude::*;
use crate::bundling::{eligible, generate_module_buckets, generate_resource_pots, lemma_partition_coverage, lemma_pots_well_formed, pot_well_formed, pots_occ};
use crate::cache::CachedModule;
use crate::config::Config;
use crate::context::CompilationContext;
use crate::error::CompilationError;
use crate::hashing::to_hex;
use crate::module::{content_hash, Module, ModuleId, ResolveKind};
use crate::module_group::{derive_module_groups, group_graph_law, group_roots_law};
use crate::plugin::{Plugin, PluginAnalyzeDepsHookResultEntry, PluginLoadHookParam, PluginResolveHookParam, PluginTransformHookParam};
use crate::resource_pot::Resource;

verus! {

/// The cap on module work units of one build; a build that would exceed it
/// fails instead of running forever on a plugin that keeps inventing
/// modules.
pub const MAX_BUILD_STEPS: usize = 1048576;

/// The compiler over a plugin set `P`.
pub struct Compiler<P> {
    pub context: CompilationContext<P>,
}

/// Some module of `ms` has identity `(path, empty query)`.
pub open spec fn graph_has_bare_path(ms: Seq<Module>, path: Seq<char>) -> bool {
    exists|i: int|
        0 <= i < ms.len() && (#[trigger] ms[i]).id.relative_path@ == path && ms[i].id.query@.len()
            == 0
}

/// Some module of `ms` has `x` as its relative path.
pub open spec fn is_module_path(ms: Seq<Module>, x: Seq<char>) -> bool {
    exists|m: int| 0 <= m < ms.len() && (#[trigger] ms[m]).id.relative_path@ == x
}

/// The resources map holds an unemitted entry under `name` carrying
/// `bytes`.
pub open spec fn stored_unemitted(
    s: Seq<(String, crate::resource_pot::Resource)>,
    name: Seq<char>,
    bytes: Seq<u8>,
) -> bool {
    exists|i: int|
        0 <= i < s.len() && (#[trigger] s[i]).0@ == name && s[i].1.bytes@ == bytes && s[i].1.emitted
            == false
}

/// `ei` indexes, in declaration order, the entry modules appended to the
/// graph's entry table from position `start` on.
pub open spec fn entries_indexed(graph: &crate::module_graph::ModuleGraph, start: int, ei: Seq<usize>) -> bool {
    &&& start + ei.len() == graph.entries@.len()
    &&& forall|j: int|
        0 <= j < ei.len() ==> (#[trigger] ei[j]) < graph.modules@.len()
            && crate::module::id_matches(
            &graph.modules@[ei[j] as int].id,
            &graph.entries@[start + j].id,
        )
}

/// The context invariant every compiler operation preserves.
pub open spec fn ctx_wf<P>(c: &CompilationContext<P>) -> bool {
    &&& c.module_graph.wf()
    &&& c.watch_graph.wf()
    &&& c.cache_manager.module_cache.wf()
}

impl<P: Plugin> Compiler<P> {
    /// Builds a compiler from a validated configuration and a plugin set.
    pub fn new(config: Config, plugins: Vec<P>) -> (r: Result<Compiler<P>, CompilationError>)
        ensures
            r is Ok,
            r matches Ok(c) ==> ctx_wf(&c.context) && c.context.module_graph.modules@.len() == 0,
            // a fresh compiler has no graph, no watched paths, no pots and
            // no resources
            r matches Ok(c) ==> c.context.module_graph.edges@.len() == 0
                && c.context.module_graph.entries@.len() == 0 && c.context.watch_graph.nodes@.len()
                == 0 && c.context.watch_graph.edges@.len() == 0 && c.context.resource_pot_map@.len()
                == 0 && c.context.resources_map@.len() == 0 && c.context.config == config,
    {
        match CompilationContext::new(config, plugins) {
            Ok(context) => Ok(Compiler { context }),
            Err(e) => Err(e),
        }
    }

    /// Read access to the shared context.
    pub fn context(&self) -> (r: &CompilationContext<P>)
        ensures
            r == &self.context,
    {
        &self.context
    }

    /// Whether the graph holds a module for `resolved_path` (made relative
    /// to the project root, with an empty query), or the watch graph
    /// watches that path.
    pub fn has_module(&self, resolved_path: &str) -> (r: bool)
        ensures
            r == (graph_has_bare_path(
                self.context.module_graph.modules@,
                crate::paths::relative_view(
                    crate::paths::normalized_view(resolved_path@),
                    crate::paths::normalized_view(self.context.config.root@),
                ),
            ) || crate::watch_graph::contains_path(self.context.watch_graph.nodes@, resolved_path@)),
    {
        let id = ModuleId::new(resolved_path, "", self.context.config.root.as_str());
        proof {
            reveal_strlit("");
            assert(id.query@.len() == 0);
        }
        let ghost target = id.relative_path@;
        let in_graph = self.context.module_graph.has_module(&id);
        proof {
            let ms = self.context.module_graph.modules@;
            if in_graph {
                let i = choose|i: int|
                    0 <= i < ms.len() && crate::module::id_matches(&(#[trigger] ms[i]).id, &id);
                assert(ms[i].id.relative_path@ == target && ms[i].id.query@.len() == 0);
                assert(graph_has_bare_path(ms, target));
            } else {
                if graph_has_bare_path(ms, target) {
                    let i = choose|i: int|
                        0 <= i < ms.len() && (#[trigger] ms[i]).id.relative_path@ == target
                            && ms[i].id.query@.len() == 0;
                    assert(ms[i].id.query@ =~= id.query@);
                    assert(crate::module::id_matches(&ms[i].id, &id));
                    assert(crate::module_graph::contains_id(ms, &id));
                }
            }
        }
        if in_graph {
            return true;
        }
        self.context.watch_graph.has_module(resolved_path)
    }

    /// The relative paths of all modules in the graph, sorted: every
    /// module-enumerating surface iterates in a deterministic order.
    pub fn relative_module_paths(&self) -> (r: Vec<String>)
        ensures
            r@.len() == self.context.module_graph.modules@.len(),
            forall|i: int, j: int|
                0 <= i < j < r@.len() ==> !crate::paths::str_lt_view(r@[j]@, r@[i]@),
            forall|j: int|
                0 <= j < r@.len() ==> is_module_path(
                    self.context.module_graph.modules@,
                    (#[trigger] r@[j])@,
                ),
            forall|m: int|
                0 <= m < self.context.module_graph.modules@.len() ==> crate::paths::holds_string(
                    r@,
                    (#[trigger] self.context.module_graph.modules@[m]).id.relative_path@,
                ),
    {
        let ms = &self.context.module_graph.modules;
        let mut out: Vec<String> = Vec::new();
        let mut i: usize = 0;
        while i < ms.len()
            invariant
                i <= ms@.len(),
                out@.len() == i,
                forall|j: int| 0 <= j < i ==> out@[j]@ == ms@[j].id.relative_path@,
            decreases ms@.len() - i,
        {
            let ghost out0 = out@;
            out.push(ms[i].id.relative_path.clone());
            proof {
                assert forall|j: int| 0 <= j < out@.len() implies out@[j]@
                    == ms@[j].id.relative_path@ by {
                    if j < out@.len() - 1 {
                        assert(out@[j] == out0[j]);
                    }
                }
            }
            i = i + 1;
        }
        let ghost unsorted = out@;
        let sorted = crate::paths::sort_strings(out);
        proof {
            assert forall|j: int| 0 <= j < sorted@.len() implies is_module_path(
                ms@,
                (#[trigger] sorted@[j])@,
            ) by {
                assert(crate::paths::holds_string(sorted@, sorted@[j]@));
                assert(crate::paths::holds_string(unsorted, sorted@[j]@));
                let t = choose|t: int| 0 <= t < unsorted.len() && unsorted[t]@ == sorted@[j]@;
                assert(ms@[t].id.relative_path@ == sorted@[j]@);
            }
            assert forall|m: int| 0 <= m < ms@.len() implies crate::paths::holds_string(
                sorted@,
                (#[trigger] ms@[m]).id.relative_path@,
            ) by {
                assert(unsorted[m]@ == ms@[m].id.relative_path@);
                assert(crate::paths::holds_string(unsorted, ms@[m].id.relative_path@));
            }
        }
        sorted
    }

    /// The bytes of the resource called `name`, when one is stored.
    pub fn resource(&self, name: &str) -> (r: Option<Vec<u8>>)
        ensures
            match r {
                Some(bytes) => exists|i: int|
                    0 <= i < self.context.resources_map@.len()
                        && (#[trigger] self.context.resources_map@[i]).0@ == name@
                        && self.context.resources_map@[i].1.bytes@ == bytes@,
                None => forall|i: int|
                    0 <= i < self.context.resources_map@.len()
                        ==> (#[trigger] self.context.resources_map@[i]).0@ != name@,
            },
    {
        let rm = &self.context.resources_map;
        let mut i: usize = 0;
        while i < rm.len()
            invariant
                i <= rm@.len(),
                rm@ == self.context.resources_map@,
                forall|j: int| 0 <= j < i ==> (#[trigger] rm@[j]).0@ != name@,
            decreases rm@.len() - i,
        {
            if crate::paths::str_eq(rm[i].0.as_str(), name) {
                let bytes = crate::module::clone_bytes(&rm[i].1.bytes);
                proof {
                    assert(rm@[i as int].0@ == name@ && rm@[i as int].1.bytes@ == bytes@);
                }
                return Some(bytes);
            }
            i = i + 1;
        }
        None
    }

    /// The names and bytes of every resource not yet emitted to a writer:
    /// each returned pair is a stored, unemitted resource, and every
    /// stored, unemitted resource appears in the result.
    pub fn resources(&self) -> (r: Vec<(String, Vec<u8>)>)
        ensures
            forall|t: int|
                0 <= t < r@.len() ==> stored_unemitted(
                    self.context.resources_map@,
                    (#[trigger] r@[t]).0@,
                    r@[t].1@,
                ),
            forall|i: int|
                0 <= i < self.context.resources_map@.len() && (#[trigger] self.context.resources_map@[i]).1.emitted
                    == false ==> exists|t: int|
                    0 <= t < r@.len() && (#[trigger] r@[t]).0@ == self.context.resources_map@[i].0@
                        && r@[t].1@ == self.context.resources_map@[i].1.bytes@,
    {
        let rm = &self.context.resources_map;
        let mut out: Vec<(String, Vec<u8>)> = Vec::new();
        let mut i: usize = 0;
        while i < rm.len()
            invariant
                i <= rm@.len(),
                rm@ == self.context.resources_map@,
                forall|t: int|
                    0 <= t < out@.len() ==> stored_unemitted(rm@, (#[trigger] out@[t]).0@, out@[t].1@),
                forall|j: int|
                    0 <= j < i && (#[trigger] rm@[j]).1.emitted == false ==> exists|t: int|
                        0 <= t < out@.len() && (#[trigger] out@[t]).0@ == rm@[j].0@ && out@[t].1@
                            == rm@[j].1.bytes@,
            decreases rm@.len() - i,
        {
            let ghost out0 = out@;
            let ghost iw = i as int;
            if !rm[i].1.emitted {
                out.push((rm[i].0.clone(), crate::module::clone_bytes(&rm[i].1.bytes)));
                proof {
                    assert forall|t: int| 0 <= t < out@.len() implies stored_unemitted(
                        rm@,
                        (#[trigger] out@[t]).0@,
                        out@[t].1@,
                    ) by {
                        if t < out@.len() - 1 {
                            assert(out@[t] == out0[t]);
                        } else {
                            assert((#[trigger] rm@[iw]).0@ == out@[t].0@ && rm@[iw].1.bytes@
                                == out@[t].1@ && rm@[iw].1.emitted == false);
                        }
                    }
                }
            }
            proof {
                assert forall|j: int| 0 <= j < i + 1 && (#[trigger] rm@[j]).1.emitted == false
                    implies exists|t: int|
                    0 <= t < out@.len() && (#[trigger] out@[t]).0@ == rm@[j].0@ && out@[t].1@
                        == rm@[j].1.bytes@ by {
                    if j < iw {
                        let t0 = choose|t: int|
                            0 <= t < out0.len() && (#[trigger] out0[t]).0@ == rm@[j].0@ && out0[t].1@
                                == rm@[j].1.bytes@;
                        assert(out@[t0] == out0[t0]);
                    } else {
                        assert(out@[out@.len() - 1].0@ == rm@[iw].0@ && out@[out@.len() - 1].1@
                            == rm@[iw].1.bytes@);
                    }
                }
            }
            i = i + 1;
        }
        out
    }

    /// The watched ancillary file paths, in watch order.
    pub fn watch_modules(&self) -> (r: Vec<String>)
        ensures
            r@.len() == self.context.watch_graph.nodes@.len(),
            forall|j: int|
                0 <= j < r@.len() ==> (#[trigger] r@[j])@ == self.context.watch_graph.nodes@[j]@,
    {
        let ws = self.context.watch_graph.modules();
        let mut out: Vec<String> = Vec::new();
        let mut i: usize = 0;
        while i < ws.len()
            invariant
                i <= ws@.len(),
                ws@ == self.context.watch_graph.nodes@,
                out@.len() == i,
                forall|j: int| 0 <= j < i ==> (#[trigger] out@[j])@ == ws@[j]@,
            decreases ws@.len() - i,
        {
            let ghost out0 = out@;
            out.push(ws[i].clone());
            proof {
                assert forall|j: int| 0 <= j < out@.len() implies (#[trigger] out@[j])@ == ws@[j]@ by {
                    if j < out@.len() - 1 {
                        assert(out@[j] == out0[j]);
                    }
                }
            }
            i = i + 1;
        }
        out
    }

    /// Resolves one specifier through the plugin driver.  When no plugin
    /// decides, the error names the specifier and its importer.
    pub(crate) fn resolve_source(&self, source: &str, importer: Option<&ModuleId>, kind: ResolveKind) -> (r:
        Result<(ModuleId, bool, bool), CompilationError>)
        ensures
            // a failure is either "no plugin decided", with the error
            // naming the specifier and its importer, or an erring hook,
            // tagged with the plugin's name
            r matches Err(e) ==> (e matches CompilationError::ResolveError {
                source: es,
                importer: ei,
            } && es@ == source@ && (importer matches Some(id) ==> ei@ == id.relative_path@) && (
            importer is None ==> ei@.len() == 0)) || e is PluginError,
    {
        let param = PluginResolveHookParam {
            source: source.to_owned(),
            importer: match importer {
                Some(id) => Some(id.duplicate()),
                None => None,
            },
            kind,
        };
        match self.context.plugin_driver.resolve(&param) {
            Ok(Some(res)) => {
                let id = ModuleId::new(
                    res.resolved_path.as_str(),
                    res.query.as_str(),
                    self.context.config.root.as_str(),
                );
                Ok((id, res.external, res.side_effects))
            },
            Ok(None) => Err(
                CompilationError::ResolveError {
                    source: source.to_owned(),
                    importer: match importer {
                        Some(id) => id.relative_path.clone(),
                        None => String::new(),
                    },
                },
            ),
            Err(e) => Err(e),
        }
    }

    /// Runs the per-module work unit on module `idx`: load, hash, cache
    /// probe, transform, process, analyze-deps, finalize, cache write.
    /// Returns the module's analyzed dependencies.
    pub(crate) fn build_module_unit(&mut self, idx: usize) -> (r: Result<
        Vec<PluginAnalyzeDepsHookResultEntry>,
        CompilationError,
    >)
        requires
            ctx_wf(&old(self).context),
            idx < old(self).context.module_graph.modules@.len(),
        ensures
            ctx_wf(&final(self).context),
            final(self).context.module_graph.modules@.len() == old(
                self,
            ).context.module_graph.modules@.len(),
            final(self).context.module_graph.edges@ == old(self).context.module_graph.edges@,
            final(self).context.module_graph.entries@ == old(self).context.module_graph.entries@,
            final(self).context.config == old(self).context.config,
            // the rebuild keeps every module's identity in place
            forall|i: int|
                0 <= i < old(self).context.module_graph.modules@.len() ==> crate::module::id_matches(
                    &(#[trigger] final(self).context.module_graph.modules@[i]).id,
                    &old(self).context.module_graph.modules@[i].id,
                ),
    {
        let path = self.context.module_graph.modules[idx].id.relative_path.clone();
        let query = self.context.module_graph.modules[idx].id.query.clone();
        let old_id = self.context.module_graph.modules[idx].id.duplicate();

        let load_param = PluginLoadHookParam { resolved_path: path.clone(), query: query.clone() };
        let loaded = match self.context.plugin_driver.load(&load_param) {
            Ok(Some(l)) => l,
            Ok(None) => {
                return Err(CompilationError::LoadError { path });
            },
            Err(e) => {
                return Err(e);
            },
        };
        let hash = content_hash(
            loaded.content.as_str(),
            &loaded.module_type,
            self.context.config.mode,
        );
        let hex = to_hex(hash);

        if self.context.config.persistent_cache
            && self.context.cache_manager.module_cache.has_module_cache(hex.as_str()) {
            match self.context.cache_manager.module_cache.get_module_cache(hex.as_str()) {
                Some(cached) => {
                    let mut m = cached.module;
                    m.id = old_id;
                    let deps = cached.deps;
                    self.context.module_graph.replace_module(idx, m);
                    return Ok(deps);
                },
                None => {
                    return Err(
                        CompilationError::CacheError { key: hex, detail: "entry vanished".to_owned() },
                    );
                },
            }
        }

        let transformed = match self.context.plugin_driver.transform(
            PluginTransformHookParam {
                content: loaded.content.clone(),
                module_type: loaded.module_type,
                resolved_path: path.clone(),
                query,
            },
        ) {
            Ok(t) => t,
            Err(e) => {
                return Err(e);
            },
        };
        self.context.record_manager.transform_records.push(
            crate::record::TransformRecord {
                module_id: path.clone(),
                plugin: "transform".to_owned(),
                result: transformed.content.clone(),
                source_maps: None,
            },
        );
        let mut module = Module::new(old_id);
        module.module_type = transformed.module_type;
        module.content = loaded.content;
        module.transformed_content = transformed.content;
        module.content_hash = hash;
        match self.context.plugin_driver.process_module(&mut module) {
            Ok(()) => {},
            Err(e) => {
                return Err(e);
            },
        }
        let kept_id = self.context.module_graph.modules[idx].id.duplicate();
        module.id = kept_id;
        let deps = match self.context.plugin_driver.analyze_deps(&module) {
            Ok(d) => d,
            Err(e) => {
                return Err(e);
            },
        };
        let mut dep_rows: Vec<(String, ResolveKind)> = Vec::new();
        let mut dr: usize = 0;
        while dr < deps.len()
            decreases deps@.len() - dr,
        {
            dep_rows.push((deps[dr].source.clone(), deps[dr].kind));
            dr = dr + 1;
        }
        self.context.record_manager.analyze_deps_records.push(
            crate::record::AnalyzeDepsRecord {
                module_id: path.clone(),
                plugin: "analyze-deps".to_owned(),
                deps: dep_rows,
            },
        );

        if self.context.config.persistent_cache {
            let mut dep_copies: Vec<PluginAnalyzeDepsHookResultEntry> = Vec::new();
            let mut d: usize = 0;
            while d < deps.len()
                decreases deps@.len() - d,
            {
                dep_copies.push(deps[d].duplicate());
                d = d + 1;
            }
            let entry = CachedModule { module: module.duplicate(), deps: dep_copies };
            self.context.cache_manager.module_cache.set_module_cache(hex.as_str(), &entry);
        }

        self.context.module_graph.replace_module(idx, module);
        Ok(deps)
    }

    /// Deposits one resource into the resources map, replacing any of the
    /// same name.
    pub(crate) fn deposit_resource(&mut self, resource: Resource)
        ensures
            ctx_wf(&old(self).context) ==> ctx_wf(&final(self).context),
            final(self).context.module_graph == old(self).context.module_graph,
            final(self).context.module_group_graph == old(self).context.module_group_graph,
            final(self).context.resource_pot_map@ == old(self).context.resource_pot_map@,
            final(self).context.config == old(self).context.config,
    {
        let mut i: usize = 0;
        while i < self.context.resources_map.len()
            invariant
                i <= self.context.resources_map@.len(),
                self.context.module_graph == old(self).context.module_graph,
                self.context.module_group_graph == old(self).context.module_group_graph,
                self.context.resource_pot_map@ == old(self).context.resource_pot_map@,
                self.context.config == old(self).context.config,
                self.context.watch_graph == old(self).context.watch_graph,
                self.context.cache_manager.module_cache.wf() == old(self).context.cache_manager.module_cache.wf(),
            decreases self.context.resources_map@.len() - i,
        {
            if crate::paths::str_eq(
                self.context.resources_map[i].0.as_str(),
                resource.name.as_str(),
            ) {
                let name = resource.name.clone();
                self.context.resources_map[i] = (name, resource);
                return ;
            }
            i = i + 1;
        }
        let name = resource.name.clone();
        self.context.resources_map.push((name, resource));
    }

    /// A full build.  On success the stored pots cover the graph: every
    /// non-external module belonging to a group sits in exactly one pot.
    pub fn compile(&mut self) -> (r: Result<(), CompilationError>)
        requires
            ctx_wf(&old(self).context),
        ensures
            ctx_wf(&final(self).context),
            old(self).context.config.entries@.len() == 0 && old(
                self,
            ).context.module_graph.modules@.len() == 0 ==> r is Ok,
            r is Ok ==> final(self).context.module_group_graph.wf(
                final(self).context.module_graph.modules@.len() as int,
            ),
            // the group-membership law holds of the stored group graph
            r is Ok ==> group_graph_law(
                &final(self).context.module_group_graph,
                final(self).context.module_graph.edges@,
                final(self).context.module_graph.modules@.len() as int,
            ),
            r is Ok ==> forall|x: usize|
                (x as int) < final(self).context.module_graph.modules@.len() ==> pots_occ(
                    final(self).context.resource_pot_map@,
                    x,
                ) == (if eligible(
                    &final(self).context.module_graph,
                    &final(self).context.module_group_graph,
                    x as int,
                ) {
                    1nat
                } else {
                    0nat
                }),
            // every stored pot is nonempty, single-keyed, typed by its
            // first module and named from its group's representative
            r is Ok ==> forall|t: int|
                0 <= t < final(self).context.resource_pot_map@.len() ==> pot_well_formed(
                    &final(self).context.module_graph,
                    &final(self).context.module_group_graph,
                    #[trigger] final(self).context.resource_pot_map@[t],
                ),
            // one entry joins the graph's entry table per configured entry
            r is Ok ==> final(self).context.module_graph.entries@.len() == old(
                self,
            ).context.module_graph.entries@.len() + old(self).context.config.entries@.len(),
            // the group roots are exactly the entry modules resolved this
            // build together with the live dynamic-import targets
            r is Ok ==> exists|ei: Seq<usize>|
                #[trigger] entries_indexed(
                    &final(self).context.module_graph,
                    old(self).context.module_graph.entries@.len() as int,
                    ei,
                ) && group_roots_law(
                    &final(self).context.module_group_graph,
                    final(self).context.module_graph.edges@,
                    ei,
                ),
    {
        // stage 1: entries
        let mut entry_indices: Vec<usize> = Vec::new();
        let mut queue: Vec<usize> = Vec::new();
        let entry_count = self.context.config.entries.len();
        let mut e: usize = 0;
        while e < entry_count
            invariant
                ctx_wf(&self.context),
                entry_count == self.context.config.entries@.len(),
                e <= entry_count,
                entry_indices@.len() == e,
                entries_indexed(
                    &self.context.module_graph,
                    old(self).context.module_graph.entries@.len() as int,
                    entry_indices@,
                ),
                forall|j: int|
                    0 <= j < entry_indices@.len() ==> (#[trigger] entry_indices@[j])
                        < self.context.module_graph.modules@.len(),
                forall|j: int|
                    0 <= j < queue@.len() ==> (#[trigger] queue@[j])
                        < self.context.module_graph.modules@.len(),
                old(self).context.config.entries@.len() == 0 && old(
                    self,
                ).context.module_graph.modules@.len() == 0 ==> queue@.len() == 0
                    && self.context.module_graph.modules@.len() == 0,
                self.context.config == old(self).context.config,
            decreases entry_count - e,
        {
            let name = self.context.config.entries[e].0.clone();
            let source = self.context.config.entries[e].1.clone();
            let (id, external, side_effects) = match self.resolve_source(
                source.as_str(),
                None,
                ResolveKind::Entry,
            ) {
                Ok(t) => t,
                Err(err) => {
                    return Err(err);
                },
            };
            let idx = match self.context.module_graph.get_index_of(&id) {
                Some(i) => i,
                None => {
                    let m = if external {
                        Module::new_external(id.duplicate())
                    } else {
                        let mut m = Module::new(id.duplicate());
                        m.side_effects = side_effects;
                        m
                    };
                    let i = self.context.module_graph.add_module(m);
                    if !external {
                        queue.push(i);
                    }
                    i
                },
            };
            entry_indices.push(idx);
            let record = source.concat(" -> ").concat(id.relative_path.as_str());
            self.context.record_manager.add_resolve_record(record);
            let ghost idv = id;
            let ghost ei0 = entry_indices@;
            let ghost entries0 = self.context.module_graph.entries@;
            self.context.module_graph.add_entry(id, name);
            proof {
                let start = old(self).context.module_graph.entries@.len() as int;
                assert(crate::module::id_matches(
                    &self.context.module_graph.modules@[idx as int].id,
                    &idv,
                ));
                assert(crate::module::id_matches(
                    &self.context.module_graph.entries@.last().id,
                    &idv,
                ));
                assert forall|j: int|
                    0 <= j < entry_indices@.len() implies (#[trigger] entry_indices@[j])
                    < self.context.module_graph.modules@.len() && crate::module::id_matches(
                    &self.context.module_graph.modules@[entry_indices@[j] as int].id,
                    &self.context.module_graph.entries@[start + j].id,
                ) by {
                    if j < entry_indices@.len() - 1 {
                        assert(entry_indices@[j] == ei0[j]);
                        assert(self.context.module_graph.entries@[start + j] == entries0[start + j]);
                    } else {
                        assert(entry_indices@[j] == idx);
                        assert(self.context.module_graph.entries@[start + j]
                            == self.context.module_graph.entries@.last());
                    }
                }
            }
            e = e + 1;
        }

        // stage 2: parallel-equivalent worklist, bounded by the step cap
        let mut fuel: usize = MAX_BUILD_STEPS;
        while queue.len() > 0
            invariant
                ctx_wf(&self.context),
                entries_indexed(
                    &self.context.module_graph,
                    old(self).context.module_graph.entries@.len() as int,
                    entry_indices@,
                ),
                forall|j: int|
                    0 <= j < queue@.len() ==> (#[trigger] queue@[j])
                        < self.context.module_graph.modules@.len(),
                forall|j: int|
                    0 <= j < entry_indices@.len() ==> (#[trigger] entry_indices@[j])
                        < self.context.module_graph.modules@.len(),
                old(self).context.config.entries@.len() == 0 && old(
                    self,
                ).context.module_graph.modules@.len() == 0 ==> queue@.len() == 0
                    && self.context.module_graph.modules@.len() == 0,
                self.context.config == old(self).context.config,
            decreases fuel,
        {
            if fuel == 0 {
                return Err(CompilationError::Generic { detail: "build step cap exceeded".to_owned() });
            }
            fuel = fuel - 1;
            let idx = queue.pop().unwrap();
            let deps = match self.build_module_unit(idx) {
                Ok(d) => d,
                Err(err) => {
                    return Err(err);
                },
            };
            let importer_id = self.context.module_graph.modules[idx].id.duplicate();
            let mut d: usize = 0;
            while d < deps.len()
                invariant
                    ctx_wf(&self.context),
                    d <= deps@.len(),
                    idx < self.context.module_graph.modules@.len(),
                    entries_indexed(
                        &self.context.module_graph,
                        old(self).context.module_graph.entries@.len() as int,
                        entry_indices@,
                    ),
                    forall|j: int|
                        0 <= j < queue@.len() ==> (#[trigger] queue@[j])
                            < self.context.module_graph.modules@.len(),
                    forall|j: int|
                        0 <= j < entry_indices@.len() ==> (#[trigger] entry_indices@[j])
                            < self.context.module_graph.modules@.len(),
                    old(self).context.config.entries@.len() > 0 || old(
                        self,
                    ).context.module_graph.modules@.len() > 0,
                    self.context.config == old(self).context.config,
                decreases deps@.len() - d,
            {
                let (dep_id, dep_external, dep_side_effects) = match self.resolve_source(
                    deps[d].source.as_str(),
                    Some(&importer_id),
                    deps[d].kind,
                ) {
                    Ok(t) => t,
                    Err(err) => {
                        return Err(err);
                    },
                };
                let target = match self.context.module_graph.get_index_of(&dep_id) {
                    Some(t) => t,
                    None => {
                        let m = if dep_external {
                            Module::new_external(dep_id)
                        } else {
                            let mut m = Module::new(dep_id);
                            m.side_effects = dep_side_effects;
                            m
                        };
                        let t = self.context.module_graph.add_module(m);
                        if !dep_external {
                            queue.push(t);
                        }
                        t
                    },
                };
                self.context.module_graph.add_edge(
                    idx,
                    target,
                    deps[d].source.clone(),
                    deps[d].kind,
                    d,
                );
                d = d + 1;
            }
        }

        // stage 3: groups, buckets, pots
        let ghost eiv = entry_indices@;
        let r = self.finish_build(entry_indices);
        proof {
            if r is Ok {
                assert(entries_indexed(
                    &self.context.module_graph,
                    old(self).context.module_graph.entries@.len() as int,
                    eiv,
                ));
            }
        }
        r
    }

    /// The tail of a build: group derivation, partial bundling, render and
    /// resource generation.
    pub(crate) fn finish_build(&mut self, entry_indices: Vec<usize>) -> (r: Result<(), CompilationError>)
        requires
            ctx_wf(&old(self).context),
            forall|j: int|
                0 <= j < entry_indices@.len() ==> (#[trigger] entry_indices@[j]) < old(
                    self,
                ).context.module_graph.modules@.len(),
        ensures
            ctx_wf(&final(self).context),
            old(self).context.module_graph.modules@.len() == 0 ==> r is Ok,
            r is Ok ==> final(self).context.module_group_graph.wf(
                final(self).context.module_graph.modules@.len() as int,
            ),
            r is Ok ==> group_graph_law(
                &final(self).context.module_group_graph,
                final(self).context.module_graph.edges@,
                final(self).context.module_graph.modules@.len() as int,
            ),
            r is Ok ==> group_roots_law(
                &final(self).context.module_group_graph,
                final(self).context.module_graph.edges@,
                entry_indices@,
            ),
            r is Ok ==> forall|x: usize|
                (x as int) < final(self).context.module_graph.modules@.len() ==> pots_occ(
                    final(self).context.resource_pot_map@,
                    x,
                ) == (if eligible(
                    &final(self).context.module_graph,
                    &final(self).context.module_group_graph,
                    x as int,
                ) {
                    1nat
                } else {
                    0nat
                }),
            // every stored pot is nonempty, single-keyed, typed by its
            // first module and named from its group's representative
            r is Ok ==> forall|t: int|
                0 <= t < final(self).context.resource_pot_map@.len() ==> pot_well_formed(
                    &final(self).context.module_graph,
                    &final(self).context.module_group_graph,
                    #[trigger] final(self).context.resource_pot_map@[t],
                ),
            // grouping and bundling read the module graph and do not
            // change it
            final(self).context.module_graph == old(self).context.module_graph,
    {
        let groups = derive_module_groups(&self.context.module_graph, &entry_indices);
        self.context.module_group_graph = groups;
        let (buckets, reps) = generate_module_buckets(
            &self.context.module_graph,
            &self.context.module_group_graph,
            &self.context.config.partial_bundling_buckets,
        );
        let pots = generate_resource_pots(&self.context.module_graph, &buckets, &reps);
        proof {
            lemma_partition_coverage(
                &self.context.module_graph,
                &self.context.module_group_graph,
                buckets@,
                pots@,
            );
            lemma_pots_well_formed(
                &self.context.module_graph,
                &self.context.module_group_graph,
                buckets@,
                reps@,
                pots@,
            );
        }

        // stage 4: render and generate
        let mut p: usize = 0;
        while p < pots.len()
            invariant
                ctx_wf(&self.context),
                p <= pots@.len(),
                old(self).context.module_graph.modules@.len() == 0 ==> pots@.len() == 0,
                self.context.module_graph == old(self).context.module_graph,
                self.context.module_group_graph.wf(self.context.module_graph.modules@.len() as int),
                group_graph_law(
                    &self.context.module_group_graph,
                    self.context.module_graph.edges@,
                    self.context.module_graph.modules@.len() as int,
                ),
                group_roots_law(
                    &self.context.module_group_graph,
                    self.context.module_graph.edges@,
                    entry_indices@,
                ),
                forall|x: usize|
                    (x as int) < self.context.module_graph.modules@.len() ==> pots_occ(pots@, x)
                        == (if eligible(
                        &self.context.module_graph,
                        &self.context.module_group_graph,
                        x as int,
                    ) {
                        1nat
                    } else {
                        0nat
                    }),
                forall|t: int, j: int|
                    0 <= t < pots@.len() && 0 <= j < (#[trigger] pots@[t]).modules@.len()
                        ==> (#[trigger] pots@[t].modules@[j]) < self.context.module_graph.modules@.len(),
                forall|t: int|
                    0 <= t < pots@.len() ==> pot_well_formed(
                        &self.context.module_graph,
                        &self.context.module_group_graph,
                        #[trigger] pots@[t],
                    ),
            decreases pots@.len() - p,
        {
            let content = match self.context.plugin_driver.render_resource_pot(
                &pots[p],
                &self.context.module_graph,
            ) {
                Ok(c) => c,
                Err(e) => {
                    return Err(e);
                },
            };
            let resources = match self.context.plugin_driver.generate_resources(
                &pots[p],
                content.as_str(),
            ) {
                Ok(rs) => rs,
                Err(e) => {
                    return Err(e);
                },
            };
            let mut resource_names: Vec<String> = Vec::new();
            let mut rn: usize = 0;
            while rn < resources.len()
                decreases resources@.len() - rn,
            {
                resource_names.push(resources[rn].name.clone());
                rn = rn + 1;
            }
            self.context.record_manager.resource_pot_records.push(
                crate::record::ResourcePotRecord {
                    pot_id: pots[p].id.clone(),
                    name: pots[p].id.clone(),
                    hook: "generate-resources".to_owned(),
                    modules: Vec::new(),
                    resources: resource_names,
                },
            );
            let mut resources = resources;
            while resources.len() > 0
                invariant
                    ctx_wf(&self.context),
                    self.context.module_graph == old(self).context.module_graph,
                    self.context.module_group_graph.wf(
                        self.context.module_graph.modules@.len() as int,
                    ),
                    group_graph_law(
                        &self.context.module_group_graph,
                        self.context.module_graph.edges@,
                        self.context.module_graph.modules@.len() as int,
                    ),
                    group_roots_law(
                        &self.context.module_group_graph,
                        self.context.module_graph.edges@,
                        entry_indices@,
                    ),
                    forall|x: usize|
                        (x as int) < self.context.module_graph.modules@.len() ==> pots_occ(pots@, x)
                            == (if eligible(
                            &self.context.module_graph,
                            &self.context.module_group_graph,
                            x as int,
                        ) {
                            1nat
                        } else {
                            0nat
                        }),
                    forall|t: int|
                        0 <= t < pots@.len() ==> pot_well_formed(
                            &self.context.module_graph,
                            &self.context.module_group_graph,
                            #[trigger] pots@[t],
                        ),
                decreases resources@.len(),
            {
                let resource = resources.pop().unwrap();
                self.deposit_resource(resource);
            }
            p = p + 1;
        }
        self.context.resource_pot_map = pots;
        Ok(())
    }
}

} // verus!
