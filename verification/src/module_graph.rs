//! The module dependency graph.
//!
//! The graph exclusively owns all module records; every other component
//! refers to a module by its index or its id.  Edges carry the raw import
//! specifier, the resolve kind and the source-order ordinal of the import
//! site; several edges between the same pair of modules are allowed when
//! distinct import sites exist.
//!
//! Well-formedness ([`ModuleGraph::wf`]) pins the central graph invariant:
//! module ids are unique, and every dependency edge starts and ends at a
//! module present in the graph, so a dependency can never dangle.

use vstd::prelude::*;
use crate::module::{id_matches, Module, ModuleId, ResolveKind};

verus! {

/// A dependency edge from importer `from` to importee `to`, one per import
/// site.
pub struct ModuleEdge {
    pub from: usize,
    pub to: usize,
    /// The raw specifier written at the import site.
    pub source: String,
    pub kind: ResolveKind,
    /// Source-order ordinal of the import site within the importer.
    pub order: usize,
}

/// An entry point: the id of its module and its user-configured name.
pub struct EntryPoint {
    pub id: ModuleId,
    pub name: String,
}

/// Directed module graph with typed edges and the entry-point table.
pub struct ModuleGraph {
    pub modules: Vec<Module>,
    pub edges: Vec<ModuleEdge>,
    pub entries: Vec<EntryPoint>,
}

/// Whether a sequence of modules contains a module with id `id` (at the
/// view level).
pub open spec fn contains_id(ms: Seq<Module>, id: &ModuleId) -> bool {
    exists|i: int| 0 <= i < ms.len() && id_matches(&ms[i].id, id)
}

/// Module ids are pairwise distinct.
pub open spec fn ids_unique(ms: Seq<Module>) -> bool {
    forall|i: int, j: int|
        0 <= i < j < ms.len() ==> !id_matches(&ms[i].id, &ms[j].id)
}

impl ModuleGraph {
    /// Graph invariant: unique identities, and every edge endpoint is a
    /// module present in the graph.
    pub open spec fn wf(&self) -> bool {
        &&& ids_unique(self.modules@)
        &&& forall|k: int|
            0 <= k < self.edges@.len() ==> (#[trigger] self.edges@[k]).from < self.modules@.len()
                && self.edges@[k].to < self.modules@.len()
    }

    /// An empty graph.
    pub fn new() -> (r: ModuleGraph)
        ensures
            r.wf(),
            r.modules@.len() == 0,
            r.edges@.len() == 0,
            r.entries@.len() == 0,
    {
        ModuleGraph { modules: Vec::new(), edges: Vec::new(), entries: Vec::new() }
    }

    /// Finds the index of the module with id `id`.
    pub fn get_index_of(&self, id: &ModuleId) -> (r: Option<usize>)
        ensures
            match r {
                Some(i) => i < self.modules@.len() && id_matches(&self.modules@[i as int].id, id),
                None => !contains_id(self.modules@, id),
            },
    {
        let n = self.modules.len();
        let mut i: usize = 0;
        while i < n
            invariant
                i <= n,
                n == self.modules@.len(),
                forall|j: int| 0 <= j < i ==> !id_matches(&self.modules@[j].id, id),
            decreases n - i,
        {
            if self.modules[i].id.eq(id) {
                return Some(i);
            }
            i = i + 1;
        }
        None
    }

    /// Whether a module with id `id` is present.
    pub fn has_module(&self, id: &ModuleId) -> (r: bool)
        ensures
            r == contains_id(self.modules@, id),
    {
        match self.get_index_of(id) {
            Some(_) => true,
            None => false,
        }
    }

    /// Inserts a module whose id is not yet present; returns its index.
    pub fn add_module(&mut self, m: Module) -> (r: usize)
        requires
            old(self).wf(),
            !contains_id(old(self).modules@, &m.id),
        ensures
            final(self).wf(),
            final(self).modules@ == old(self).modules@.push(m),
            final(self).edges@ == old(self).edges@,
            final(self).entries@ == old(self).entries@,
            r == old(self).modules@.len(),
    {
        let r = self.modules.len();
        self.modules.push(m);
        proof {
            assert forall|i: int, j: int| 0 <= i < j < self.modules@.len() implies !id_matches(
                &self.modules@[i].id,
                &self.modules@[j].id,
            ) by {
                if j < self.modules@.len() - 1 {
                    assert(!id_matches(&old(self).modules@[i].id, &old(self).modules@[j].id));
                }
            }
        }
        r
    }

    /// Records a dependency edge between two present modules.
    pub fn add_edge(&mut self, from: usize, to: usize, source: String, kind: ResolveKind, order: usize)
        requires
            old(self).wf(),
            from < old(self).modules@.len(),
            to < old(self).modules@.len(),
        ensures
            final(self).wf(),
            final(self).modules@ == old(self).modules@,
            final(self).entries@ == old(self).entries@,
            final(self).edges@.len() == old(self).edges@.len() + 1,
            final(self).edges@ == old(self).edges@.push(final(self).edges@.last()),
            final(self).edges@.last().from == from,
            final(self).edges@.last().to == to,
            final(self).edges@.last().kind == kind,
            final(self).edges@.last().order == order,
            final(self).edges@.last().source@ == source@,
    {
        self.edges.push(ModuleEdge { from, to, source, kind, order });
    }

    /// Declares an entry point under its configured name.
    pub fn add_entry(&mut self, id: ModuleId, name: String)
        ensures
            final(self).modules@ == old(self).modules@,
            final(self).edges@ == old(self).edges@,
            final(self).entries@.len() == old(self).entries@.len() + 1,
            final(self).entries@ == old(self).entries@.push(final(self).entries@.last()),
            id_matches(&final(self).entries@.last().id, &id),
            final(self).entries@.last().name@ == name@,
            old(self).wf() ==> final(self).wf(),
    {
        self.entries.push(EntryPoint { id, name });
    }

    /// The configured name of the entry whose module id is `id`, when `id`
    /// is an entry.
    pub fn entry_name(&self, id: &ModuleId) -> (r: Option<String>)
        ensures
            match r {
                Some(name) => exists|i: int|
                    0 <= i < self.entries@.len() && id_matches(&(#[trigger] self.entries@[i]).id, id)
                        && self.entries@[i].name@ == name@,
                None => forall|i: int|
                    0 <= i < self.entries@.len() ==> !id_matches(&(#[trigger] self.entries@[i]).id, id),
            },
    {
        let n = self.entries.len();
        let mut i: usize = 0;
        while i < n
            invariant
                i <= n,
                n == self.entries@.len(),
                forall|j: int| 0 <= j < i ==> !id_matches(&(#[trigger] self.entries@[j]).id, id),
            decreases n - i,
        {
            if self.entries[i].id.eq(id) {
                return Some(self.entries[i].name.clone());
            }
            i = i + 1;
        }
        None
    }

    /// Replaces the record of one module, keeping its identity.
    pub fn replace_module(&mut self, idx: usize, m: Module)
        requires
            old(self).wf(),
            idx < old(self).modules@.len(),
            id_matches(&m.id, &old(self).modules@[idx as int].id),
        ensures
            final(self).wf(),
            final(self).modules@ == old(self).modules@.update(idx as int, m),
            final(self).edges@ == old(self).edges@,
            final(self).entries@ == old(self).entries@,
    {
        self.modules[idx] = m;
        proof {
            assert forall|i: int, j: int| 0 <= i < j < self.modules@.len() implies !id_matches(
                &self.modules@[i].id,
                &self.modules@[j].id,
            ) by {
                assert(!id_matches(&old(self).modules@[i].id, &old(self).modules@[j].id));
            }
        }
    }

    /// Drops every dependency edge leaving module `from`; other edges keep
    /// their relative order.
    pub fn remove_edges_of(&mut self, from: usize)
        requires
            old(self).wf(),
        ensures
            final(self).wf(),
            final(self).modules@ == old(self).modules@,
            final(self).entries@ == old(self).entries@,
            forall|k: int|
                0 <= k < final(self).edges@.len() ==> (#[trigger] final(self).edges@[k]).from != from,
    {
        let mut kept: Vec<ModuleEdge> = Vec::new();
        let mut k: usize = 0;
        while k < self.edges.len()
            invariant
                k <= self.edges@.len(),
                self.wf(),
                self.modules@ == old(self).modules@,
                forall|t: int|
                    0 <= t < kept@.len() ==> (#[trigger] kept@[t]).from != from && kept@[t].from
                        < self.modules@.len() && kept@[t].to < self.modules@.len(),
            decreases self.edges@.len() - k,
        {
            if self.edges[k].from != from {
                let ghost kept0 = kept@;
                let e = ModuleEdge {
                    from: self.edges[k].from,
                    to: self.edges[k].to,
                    source: self.edges[k].source.clone(),
                    kind: self.edges[k].kind,
                    order: self.edges[k].order,
                };
                kept.push(e);
                proof {
                    assert forall|t: int| 0 <= t < kept@.len() implies (#[trigger] kept@[t]).from
                        != from && kept@[t].from < self.modules@.len() && kept@[t].to
                        < self.modules@.len() by {
                        if t < kept@.len() - 1 {
                            assert(kept@[t] == kept0[t]);
                        }
                    }
                }
            }
            k = k + 1;
        }
        self.edges = kept;
    }

    /// Dependency closure law: in a well-formed graph, every dependency
    /// edge out of any module targets a module present in the graph (an
    /// external placeholder included), so no recorded dependency dangles.
    pub proof fn lemma_dep_edges_present(&self)
        requires
            self.wf(),
        ensures
            forall|k: int|
                0 <= k < self.edges@.len() ==> 0 <= (#[trigger] self.edges@[k]).to
                    < self.modules@.len(),
    {
    }
}

} // verus!
